use slang::ast::Layout;
use slang::error::{error_report, Error, ErrorKind};
use slang::stage::codegen::{resolve_labels, LabelSite};
use slang::stage::folding::{fold_constants, fold_fixpoint, FoldNode, FoldNodeOf};
use slang::stage::infer::{
    apply_types, infer_types, integer_default_events, assign_literal_types, assign_proc_types, propagate_types,
    assign_return_exprs, types_down_events, types_up_events, assign_variables, TypeNode,
};
use slang::stage::scope::{resolve_variables, verify_all_variables_resolved, walk_source_files, ScopeNode};
use slang::stage::ir::{
    allocate_declarations, allocate_literals, allocate_variables, layout_types, Arg, Literals,
};
use slang::stage::parse::{parse_files, parse_tokens};
use slang::stage::tokenize::{tokenize, tokenize_files, Span};
use slang::stage::ty::{
    check_not_args, propagate_call_exprs, CallSite, ProcSig, verify_bin_ops, verify_condition, verify_const_decls, verify_literals,
    verify_typed,
};
use slang::tree::{BinOp, LiteralOf, Type};

fn sp(start: usize, end: usize) -> Span {
    Span { start, end }
}

fn custom(span: Span, msg: &'static str) -> Error {
    Error { span, kind: ErrorKind::Custom(msg) }
}

fn msg(span: Span, text: &str) -> Error {
    Error { span, kind: ErrorKind::Msg(text.to_string()) }
}

fn lit(v: u64) -> FoldNode {
    FoldNodeOf::Lit(LiteralOf::Integer(v))
}

fn bin(op: BinOp, ty: Type, lhs: usize, rhs: usize) -> FoldNode {
    FoldNodeOf::Bin { op, ty, lhs, rhs }
}

fn spans(n: usize) -> Vec<Span> {
    (0..n).map(|i| sp(i * 10, i * 10 + 1)).collect()
}

#[test]
fn checks_report_the_first_failure() {
    assert_eq!(verify_literals(&vec![(LiteralOf::Integer(1), Type::U8, sp(0, 1))]), Ok(()));
    assert_eq!(
        verify_literals(&vec![
            (LiteralOf::Str(b"a".to_vec()), Type::Str, sp(0, 1)),
            (LiteralOf::Integer(1), Type::Str, sp(2, 3)),
            (LiteralOf::Str(b"b".to_vec()), Type::U8, sp(4, 5)),
        ]),
        Err(msg(sp(2, 3), "Integer is not a valid `str`"))
    );
    assert_eq!(
        verify_bin_ops(&vec![
            (BinOp::Assign, Type::Str, sp(0, 1)),
            (BinOp::Shl, Type::Str, sp(2, 3)),
        ]),
        Err(msg(sp(2, 3), "`<<` expects integer type, got `str`"))
    );
    assert_eq!(verify_bin_ops(&vec![(BinOp::Add, Type::I8, sp(0, 1))]), Ok(()));
    assert_eq!(
        verify_condition(&vec![(Some(Type::U8), sp(0, 1)), (None, sp(2, 3)), (Some(Type::Str), sp(4, 5))]),
        Err(custom(sp(2, 3), "Expected integer expression"))
    );
    assert_eq!(
        verify_condition(&vec![(Some(Type::Not), sp(4, 5))]),
        Err(msg(sp(4, 5), "Expected integer, got `()`"))
    );
    assert_eq!(
        verify_typed(&vec![(Some(Type::U8), sp(0, 1)), (None, sp(2, 3))]),
        Err(custom(sp(2, 3), "Failed to infer type"))
    );
    assert_eq!(verify_typed(&vec![]), Ok(()));
    assert_eq!(
        verify_const_decls(&vec![(false, None, sp(0, 1)), (true, Some(Type::U8), sp(2, 3)), (true, None, sp(4, 5))]),
        Err(custom(sp(4, 5), "Constant requires explicit type"))
    );
}

#[test]
fn not_args_drop_calls_and_refuse_the_rest() {
    assert_eq!(
        check_not_args(&vec![
            (1, Type::Not, true, sp(0, 1)),
            (2, Type::U8, false, sp(2, 3)),
            (3, Type::Not, true, sp(4, 5)),
        ]),
        Ok(vec![1, 3])
    );
    assert_eq!(
        check_not_args(&vec![(1, Type::Not, true, sp(0, 1)), (2, Type::Not, false, sp(2, 3))]),
        Err(msg(sp(2, 3), "Expected value, got `()`"))
    );
}

#[test]
fn layouts_skip_the_unit_type() {
    assert_eq!(
        layout_types(&vec![(4, Type::I16), (5, Type::Not), (6, Type::Str)]),
        vec![
            (4, Layout { size: 2, align: 2, composite: false }),
            (6, Layout { size: 8, align: 8, composite: false }),
        ]
    );
}

#[test]
fn literals_are_stored_once() {
    let mut literals = Literals::new();
    assert_eq!(literals.allocate(LiteralOf::Integer(7)), 0);
    let args = allocate_literals(
        &mut literals,
        &vec![
            (10, LiteralOf::Str(b"hi".to_vec())),
            (11, LiteralOf::Integer(7)),
            (12, LiteralOf::Str(b"hi".to_vec())),
        ],
    );
    assert_eq!(args, vec![(10, Arg::Lit(1)), (11, Arg::Lit(0)), (12, Arg::Lit(1))]);
    assert_eq!(literals.len(), 2);
    assert_eq!(*literals.get(0), LiteralOf::Integer(7));
    assert_eq!(*literals.get(1), LiteralOf::Str(b"hi".to_vec()));
}

#[test]
fn declarations_and_variables_get_operands() {
    let mut counter = 3usize;
    let decls = allocate_declarations(&mut counter, &vec![20, 21], &vec![(22, 10)], &vec![(10, Arg::Lit(4))]);
    assert_eq!(counter, 5);
    assert_eq!(decls, Some(vec![(20, Arg::Var(3)), (21, Arg::Var(4)), (22, Arg::Lit(4))]));
    let decls = decls.unwrap();
    assert_eq!(
        allocate_variables(&vec![(30, 21), (31, 22)], &decls),
        Some(vec![(30, Arg::Var(4)), (31, Arg::Lit(4))])
    );
    assert_eq!(allocate_variables(&vec![(30, 99)], &decls), None);
    let mut counter = 0usize;
    assert_eq!(allocate_declarations(&mut counter, &vec![], &vec![(22, 11)], &vec![]), None);
}

// `const a: u8 = 1 + 2;` then `a * 3`.
fn const_table() -> Vec<FoldNode> {
    vec![
        FoldNodeOf::Const { expr: 1 },
        bin(BinOp::Add, Type::U8, 2, 3),
        lit(1),
        lit(2),
        bin(BinOp::Mul, Type::U8, 5, 6),
        FoldNodeOf::Var { decl: 0 },
        lit(3),
    ]
}

#[test]
fn folding_runs_to_a_fixpoint() {
    let folded = fold_fixpoint(const_table()).unwrap();
    assert_eq!(
        folded,
        vec![
            FoldNodeOf::Const { expr: 1 },
            lit(3),
            FoldNodeOf::Gone,
            FoldNodeOf::Gone,
            lit(9),
            FoldNodeOf::Gone,
            FoldNodeOf::Gone,
        ]
    );
    // One more run changes nothing.
    let again = fold_fixpoint(folded.iter().map(|n| n.copy()).collect()).unwrap();
    assert_eq!(again, folded);
}

#[test]
fn folding_wraps_in_the_operator_type() {
    let folded = fold_fixpoint(vec![bin(BinOp::Add, Type::U8, 1, 2), lit(200), lit(100)]).unwrap();
    assert_eq!(folded[0], lit(44));
    let folded = fold_fixpoint(vec![bin(BinOp::Sub, Type::I8, 1, 2), lit(0), lit(1)]).unwrap();
    assert_eq!(folded[0], lit(0xff));
}

#[test]
fn folding_leaves_assignments_and_logic() {
    let table = vec![bin(BinOp::And, Type::U8, 1, 2), lit(1), lit(0), bin(BinOp::AddAssign, Type::U8, 4, 5), FoldNodeOf::Other, lit(1)];
    let folded = fold_fixpoint(table.iter().map(|n| n.copy()).collect()).unwrap();
    assert_eq!(folded, table);
}

#[test]
fn folding_a_division_by_zero_has_no_value() {
    assert_eq!(fold_fixpoint(vec![bin(BinOp::Div, Type::U32, 1, 2), lit(5), lit(0)]), None);
    assert_eq!(fold_fixpoint(vec![bin(BinOp::Mod, Type::U8, 1, 2), lit(5), lit(0x100)]), None);
    assert_eq!(fold_fixpoint(vec![bin(BinOp::Add, Type::Str, 1, 2), lit(5), lit(1)]), None);
}

#[test]
fn string_constants_replace_their_variables() {
    let table = vec![
        FoldNodeOf::Const { expr: 1 },
        FoldNodeOf::Lit(LiteralOf::Str(b"hey".to_vec())),
        FoldNodeOf::Var { decl: 0 },
    ];
    let folded = fold_fixpoint(table).unwrap();
    assert_eq!(folded[2], FoldNodeOf::Lit(LiteralOf::Str(b"hey".to_vec())));
}

#[test]
fn fold_stage_errors() {
    let table = vec![
        FoldNodeOf::Const { expr: 1 },
        lit(1),
        bin(BinOp::Assign, Type::U8, 3, 4),
        FoldNodeOf::Var { decl: 0 },
        lit(2),
    ];
    assert_eq!(
        fold_constants(table, &spans(5)),
        Some(Err(custom(sp(30, 31), "Can not assign to a constant")))
    );
    let table = vec![FoldNodeOf::Const { expr: 1 }, FoldNodeOf::Other];
    assert_eq!(
        fold_constants(table, &spans(2)),
        Some(Err(custom(sp(10, 11), "Expression is not const")))
    );
    assert_eq!(fold_constants(const_table(), &spans(7)).unwrap().unwrap()[4], lit(9));
    assert_eq!(fold_constants(vec![bin(BinOp::Div, Type::U8, 1, 2), lit(1), lit(0)], &spans(3)), None);
}

fn node(var_of: Option<usize>, is_decl: bool, users: Vec<usize>, down: Vec<usize>, up: Option<usize>) -> TypeNode {
    TypeNode { span: sp(0, 1), var_of, is_decl, users, down, up }
}

// `let x: u8 = 1 + 2;`: the declaration, the addition and its two literals.
fn typed_decl_graph() -> Vec<TypeNode> {
    vec![
        node(None, true, vec![], vec![1], None),
        node(None, false, vec![], vec![2, 3], Some(0)),
        node(None, false, vec![], vec![], Some(1)),
        node(None, false, vec![], vec![], Some(1)),
    ]
}

#[test]
fn declared_types_flow_down_to_literals() {
    let g = typed_decl_graph();
    let init = vec![Some(Type::U8), None, None, None];
    assert_eq!(types_down_events(&g, &init), vec![(1, Type::U8)]);
    assert_eq!(types_up_events(&g, &init), vec![]);
    assert_eq!(
        infer_types(&g, init, &vec![], &vec![2, 3]),
        Ok(vec![Some(Type::U8); 4])
    );
}

#[test]
fn untyped_integers_default_to_i32() {
    // `let x = 5;` and a use of `x`.
    let g = vec![
        node(None, true, vec![2], vec![1], None),
        node(None, false, vec![], vec![], Some(0)),
        node(Some(0), false, vec![], vec![], None),
    ];
    let init = vec![None, None, None];
    assert_eq!(integer_default_events(&vec![1], &init), vec![(1, Type::I32)]);
    assert_eq!(
        infer_types(&g, init, &vec![], &vec![1]),
        Ok(vec![Some(Type::I32); 3])
    );
}

#[test]
fn two_types_meeting_is_an_error() {
    // Types flow up before they flow down: the string reaches the
    // declaration first.
    let g = vec![
        node(None, true, vec![], vec![1], None),
        TypeNode { span: sp(8, 13), var_of: None, is_decl: false, users: vec![], down: vec![], up: Some(0) },
    ];
    let init = vec![Some(Type::U8), Some(Type::Str)];
    assert_eq!(
        infer_types(&g, init, &vec![], &vec![]),
        Err(msg(sp(0, 1), "Expression is `u8` but expected to be `str`"))
    );
}

#[test]
fn call_types_reach_the_variables_of_a_declaration() {
    // `let y = f();` where `f` returns `u16`, then `y` used twice.
    let g = vec![
        node(None, true, vec![2, 3], vec![1], None),
        node(None, false, vec![], vec![], Some(0)),
        node(Some(0), false, vec![], vec![], None),
        node(Some(0), false, vec![], vec![], None),
    ];
    let ts = propagate_types(&g, vec![None; 4], &vec![(1, Type::U16)]).unwrap();
    assert_eq!(ts, vec![Some(Type::U16); 4]);
}

fn scope_leaf(entity: u64, ident: Option<&str>, is_var: bool, is_decl: bool) -> ScopeNode {
    ScopeNode {
        entity,
        ident: ident.map(|s| s.as_bytes().to_vec()),
        span: sp(entity as usize, entity as usize + 1),
        is_var,
        is_decl,
        is_const: false,
        is_var_decl: is_decl,
        new_scope: false,
        children: Vec::new(),
    }
}

fn scope_root(entity: u64, children: Vec<ScopeNode>) -> ScopeNode {
    ScopeNode { new_scope: true, children, ..scope_leaf(entity, None, false, false) }
}

#[test]
fn files_resolve_with_scopes_of_their_own() {
    let a = scope_root(0, vec![scope_leaf(1, Some("x"), false, true), scope_leaf(2, Some("x"), true, false)]);
    let b = scope_root(10, vec![scope_leaf(11, Some("x"), false, true), scope_leaf(12, Some("x"), true, false)]);
    assert_eq!(walk_source_files(&vec![a, b]), Ok(vec![(2, 1), (12, 11)]));
    let a = scope_root(0, vec![scope_leaf(1, Some("x"), false, true)]);
    let b = scope_root(10, vec![scope_leaf(12, Some("x"), true, false)]);
    assert_eq!(walk_source_files(&vec![a, b]), Err(custom(sp(12, 13), "Variable is not declared")));
}

#[test]
fn unbound_variables_are_reported() {
    let bound = vec![(2, 1), (5, 4)];
    assert_eq!(verify_all_variables_resolved(&vec![(2, sp(2, 3)), (5, sp(5, 6))], &bound), Ok(()));
    assert_eq!(
        verify_all_variables_resolved(&vec![(2, sp(2, 3)), (7, sp(7, 8)), (9, sp(9, 10))], &bound),
        Err(custom(sp(7, 8), "Variable is not declared"))
    );
}

#[test]
fn initial_types_of_the_type_stage() {
    assert_eq!(
        assign_literal_types(&vec![(0, LiteralOf::Integer(1)), (1, LiteralOf::Str(b"s".to_vec()))]),
        vec![(1, Type::Str)]
    );
    let ts = vec![Some(Type::U16), None, None, None];
    assert_eq!(assign_proc_types(&ts, &vec![(1, Some(0)), (2, None)]), Some(vec![(1, Type::U16), (2, Type::Not)]));
    assert_eq!(assign_proc_types(&ts, &vec![(1, Some(3))]), None);
    assert_eq!(
        assign_return_exprs(&vec![(3, sp(0, 6), Some(Type::U8)), (2, sp(7, 13), None)]),
        Err(custom(sp(7, 13), "`return` is not in a procedure body"))
    );
    assert_eq!(assign_return_exprs(&vec![(3, sp(0, 6), Some(Type::U8))]), Ok(vec![(3, Type::U8)]));
    assert_eq!(
        assign_variables(&ts, &vec![(1, 0, true), (2, 0, false), (3, 2, true)]),
        vec![(1, Type::U16)]
    );
    let mut ts = ts;
    apply_types(&mut ts, &vec![(1, Type::U8), (2, Type::I8), (1, Type::Str)]);
    assert_eq!(ts, vec![Some(Type::U16), Some(Type::Str), Some(Type::I8), None]);
}

#[test]
fn files_are_lexed_and_parsed_in_turn() {
    let lists = tokenize_files(&vec!["fn a() {}", "", "fn b() {}"]).unwrap().unwrap();
    assert_eq!(lists.len(), 3);
    assert_eq!(lists[0], tokenize("fn a() {}").unwrap());
    assert!(lists[1].is_empty());
    let trees = parse_files(&lists).unwrap();
    assert_eq!(trees.len(), 3);
    assert_eq!(trees[1].len(), 0);
    assert_eq!(trees[2], parse_tokens(&lists[2]).unwrap());
    let bad = tokenize_files(&vec!["fn a() {}", "\"open", "@"]).unwrap();
    assert_eq!(bad.err(), tokenize("\"open").err());
    let lists = tokenize_files(&vec!["fn a() {}", "fn ( {"]).unwrap().unwrap();
    assert_eq!(parse_files(&lists).err(), parse_tokens(&lists[1]).err());
}

#[test]
fn calls_pass_types_to_their_arguments() {
    let procs = vec![
        ProcSig { name: b"f".to_vec(), arg_types: vec![Type::U8, Type::Str], ty: Type::I64, variadic: false },
        ProcSig { name: b"printf".to_vec(), arg_types: vec![Type::Str], ty: Type::I32, variadic: true },
    ];
    let calls = vec![
        CallSite { call: 1, name: b"f".to_vec(), args: vec![2, 3], span: sp(0, 5) },
        CallSite { call: 4, name: b"printf".to_vec(), args: vec![5, 6], span: sp(6, 12) },
    ];
    assert_eq!(
        propagate_call_exprs(&calls, &procs),
        Ok(vec![(2, Type::U8), (3, Type::Str), (1, Type::I64), (5, Type::Str), (4, Type::I32)])
    );
    let calls = vec![
        CallSite { call: 1, name: b"f".to_vec(), args: vec![2], span: sp(0, 5) },
        CallSite { call: 4, name: b"g".to_vec(), args: vec![], span: sp(6, 9) },
    ];
    assert_eq!(propagate_call_exprs(&calls, &procs), Err(msg(sp(0, 5), "Expected 2 arguments, got 1")));
    let calls = vec![CallSite { call: 4, name: b"g".to_vec(), args: vec![], span: sp(6, 9) }];
    assert_eq!(propagate_call_exprs(&calls, &procs), Err(custom(sp(6, 9), "Undefined procedure")));
}

#[test]
fn labels_get_their_assembly_names() {
    let labels = vec![
        LabelSite { node: 1, name: "main", body: false, epilogue: false, unique: None },
        LabelSite { node: 2, name: "main", body: true, epilogue: false, unique: None },
        LabelSite { node: 3, name: "if", body: false, epilogue: true, unique: Some("3v1".to_string()) },
    ];
    assert_eq!(
        resolve_labels(&labels),
        vec![
            (1, "_main".to_string()),
            (2, "_main_body".to_string()),
            (3, "_if_epilogue_3v1".to_string()),
        ]
    );
}

#[test]
fn an_empty_block_does_not_leak_its_procedure_scope() {
    // `fn a(n) { {} }` then `fn b() { n }`.
    let empty_block = scope_root(4, vec![]);
    let a = ScopeNode {
        ident: Some(b"a".to_vec()),
        ..scope_root(1, vec![scope_leaf(2, Some("n"), false, true), scope_root(3, vec![empty_block])])
    };
    let b = ScopeNode {
        ident: Some(b"b".to_vec()),
        ..scope_root(5, vec![scope_root(6, vec![scope_leaf(7, Some("n"), true, false)])])
    };
    let file = scope_root(0, vec![a, b]);
    assert_eq!(resolve_variables(&file), Err(custom(sp(7, 8), "Variable is not declared")));
}

#[test]
fn error_reports_show_the_lines_and_carets() {
    let content = "fn main() {\n\tlet x = 1;\n\tx = y;\n}\n";
    let start = content.find("y;").unwrap();
    let error = Error { span: sp(start, start + 1), kind: ErrorKind::Custom("Variable is not declared") };
    let report = String::from_utf8(error_report("f.sl", content, &error, false)).unwrap();
    assert_eq!(
        report,
        "f.sl:3:6: Variable is not declared\n      let x = 1;\n>     x = y;\n          ^\n"
    );
    let colored = String::from_utf8(error_report("f.sl", content, &error, true)).unwrap();
    assert!(colored.starts_with("\x1b[91m\x1b[4mf.sl:3:6: Variable is not declared\x1b[0m\n"));
    // An error at the end of the text: no rest of line, no newline after it.
    let content = "ab\ncd";
    let error = Error { span: sp(5, 7), kind: ErrorKind::Msg("Expected `;`".to_string()) };
    let report = String::from_utf8(error_report("g", content, &error, false)).unwrap();
    assert_eq!(report, "g:2:3: Expected `;`\n  ab\n> cd    ^^\n");
}
