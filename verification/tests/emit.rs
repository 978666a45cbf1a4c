use slang::ast::Layout;
use slang::stage::emit::{collect_ir, try_emit, AsmEnv, AsmError, ProcInfo};
use slang::stage::ir::{Arg, IrBinOp, IrOf, ItemOf};
use slang::tree::LiteralOf;

fn word() -> Layout {
    Layout { size: 8, align: 8, composite: false }
}

fn env() -> AsmEnv {
    AsmEnv {
        args: vec![(1, Arg::Var(0)), (2, Arg::Var(1)), (3, Arg::Lit(0)), (4, Arg::Lit(1))],
        layouts: vec![(1, word()), (2, word()), (4, word())],
        labels: vec![
            (10, b"_main".to_vec()),
            (11, b"_main_epilogue".to_vec()),
            (4, b"d1".to_vec()),
        ],
        procs: vec![(20, ProcInfo { prologue: Some(b"_f".to_vec()), named: 1 })],
        literals: vec![LiteralOf::Integer(7), LiteralOf::Str(b"hi".to_vec())],
    }
}

#[test]
fn emitting_a_procedure() {
    let prog = vec![
        IrOf::Label { label: 10 },
        IrOf::Allocate { args: vec![1, 2] },
        IrOf::Store { dst: 1, src: 3 },
        IrOf::Bin { dst: 2, lhs: 1, rhs: 3, bin: IrBinOp::Add },
        IrOf::Call { proc: 20, arguments: vec![4, 2], result: Some(1) },
        IrOf::Jump { label: 11 },
        IrOf::Label { label: 11 },
        IrOf::ReturnAndDeallocate { result: Some(2) },
    ];
    let data = b".data\n\td1: .asciz \"hi\"\n".to_vec();
    let text = try_emit(&env(), &prog, &data).unwrap().unwrap();
    let expected = ".global _start\n_start:\n\tbl _main\n\tb _exit\n\
        _main:\n\
        \tsub sp, sp, 48\n\tstp x29, x30, [sp, 32]\n\tadd x29, sp, 32\n\
        \tmov x9, 7\n\tstr x9, [x29, -8]\n\
        \tldr x10, [x29, -8]\n\tmov x11, 7\n\tadd x9, x10, x11\n\tstr x9, [x29, -16]\n\
        \tsub sp, sp, 16\n\
        \tadrp x0, d1@PAGE\n\tadd x0, x0, d1@PAGEOFF\n\
        \tldr x9, [x29, -16]\n\tstr x9, [sp, 0]\n\
        \tbl _f\n\tadd sp, sp, 16\n\
        \tstr x0, [x29, -8]\n\
        \tb _main_epilogue\n\
        _main_epilogue:\n\
        \tldr x0, [x29, -16]\n\tldp x29, x30, [sp, 32]\n\tadd sp, sp, 48\n\tret\n\
        .data\n\td1: .asciz \"hi\"\n";
    assert_eq!(String::from_utf8(text).unwrap(), expected);
}

#[test]
fn emitting_comparisons_remainders_and_negations() {
    let prog = vec![
        IrOf::Allocate { args: vec![1, 2] },
        IrOf::Bin { dst: 2, lhs: 1, rhs: 3, bin: IrBinOp::Le },
        IrOf::Bin { dst: 2, lhs: 1, rhs: 3, bin: IrBinOp::Mod },
        IrOf::Unary { dst: 1, src: 2, una: slang::tree::UnaryOp::Not },
    ];
    let text = String::from_utf8(try_emit(&env(), &prog, &Vec::new()).unwrap().unwrap()).unwrap();
    assert!(text.contains("\tcmp x10, x11\n\tcset x9, le\n"));
    assert!(text.contains("\tudiv x9, x10, x11\n\tmsub x9, x9, x11, x10\n"));
    assert!(text.contains("\tldr x9, [x29, -16]\n\tmvn x9, x9\n\tstr x9, [x29, -8]\n"));
}

#[test]
fn large_integers_are_loaded_from_the_literal_pool() {
    let mut e = env();
    e.literals[0] = LiteralOf::Integer(4096);
    let prog = vec![IrOf::Allocate { args: vec![1] }, IrOf::Store { dst: 1, src: 3 }];
    let text = String::from_utf8(try_emit(&e, &prog, &Vec::new()).unwrap().unwrap()).unwrap();
    assert!(text.ends_with("\tldr x9, =4096\n\tstr x9, [x29, -8]\n"));
}

#[test]
fn a_store_outside_a_procedure_panics() {
    let prog = vec![IrOf::Store { dst: 1, src: 3 }];
    assert!(try_emit(&env(), &prog, &Vec::new()).is_none());
}

#[test]
fn a_missing_label_is_an_error() {
    let prog = vec![IrOf::Label { label: 99 }];
    assert_eq!(try_emit(&env(), &prog, &Vec::new()), Some(Err(AsmError::NoLabel)));
}

#[test]
fn storing_into_a_literal_is_an_error() {
    let prog = vec![IrOf::Allocate { args: vec![1] }, IrOf::Store { dst: 3, src: 1 }];
    assert_eq!(try_emit(&env(), &prog, &Vec::new()), Some(Err(AsmError::StoreIntoNonVar)));
}

#[test]
fn allocating_a_literal_is_an_error() {
    let prog = vec![IrOf::Allocate { args: vec![3] }];
    assert_eq!(try_emit(&env(), &prog, &Vec::new()), Some(Err(AsmError::AllocateNonVar)));
}

#[test]
fn arguments_beyond_eight_go_on_the_stack() {
    let mut e = env();
    e.procs[0].1.named = 10;
    let args = vec![1, 1, 1, 1, 1, 1, 1, 1, 2];
    let prog = vec![
        IrOf::Allocate { args: vec![1, 2] },
        IrOf::Call { proc: 20, arguments: args, result: None },
    ];
    let text = String::from_utf8(try_emit(&e, &prog, &Vec::new()).unwrap().unwrap()).unwrap();
    assert!(text.contains("\tsub sp, sp, 16\n\tldr x0, [x29, -8]\n"));
    assert!(text.contains("\tldr x7, [x29, -8]\n\tldr x9, [x29, -16]\n\tstr x9, [sp, 0]\n\tbl _f\n\tadd sp, sp, 16\n"));
}

#[test]
fn arguments_are_taken_from_registers_and_the_stack() {
    let prog = vec![
        IrOf::Allocate { args: vec![1, 2] },
        IrOf::LoadArguments { arguments: vec![1, 2, 1, 2, 1, 2, 1, 2, 1] },
    ];
    let text = String::from_utf8(try_emit(&env(), &prog, &Vec::new()).unwrap().unwrap()).unwrap();
    assert!(text.contains("\tstr x0, [x29, -8]\n\tstr x1, [x29, -16]\n"));
    assert!(text.ends_with("\tstr x7, [x29, -16]\n\tldr x9, [sp, 48]\n\tstr x9, [x29, -8]\n"));
}

#[test]
fn collecting_the_code_of_procedures() {
    let table = vec![
        (5, vec![ItemOf::Op(IrOf::Jump { label: 11 }), ItemOf::Sub(6)]),
        (6, vec![ItemOf::Op(IrOf::Label { label: 11 })]),
    ];
    let procs = vec![vec![
        ItemOf::Op(IrOf::Label { label: 10 }),
        ItemOf::Sub(5),
        ItemOf::Sub(7),
        ItemOf::Op(IrOf::ReturnAndDeallocate { result: None }),
    ]];
    let prog = collect_ir(&table, &procs).unwrap();
    assert_eq!(
        prog,
        vec![
            IrOf::Label { label: 10 },
            IrOf::Jump { label: 11 },
            IrOf::Label { label: 11 },
            IrOf::ReturnAndDeallocate { result: None },
        ]
    );
}

#[test]
fn code_that_holds_itself_is_refused() {
    let table = vec![(5, vec![ItemOf::Sub(5)])];
    let procs = vec![vec![ItemOf::Sub(5)]];
    assert!(collect_ir(&table, &procs).is_none());
}
