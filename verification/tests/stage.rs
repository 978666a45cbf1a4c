use slang::error::{line_column, Error, ErrorKind};
use slang::stage::codegen::{asm_label, data_section, literal_label};
use slang::stage::ir::{
    bin_op_ir, block_ir, call_ir, declaration_ir, if_ir, if_labels, layout_of, proc_ir, return_ir,
    unary_op_ir, while_ir, while_labels, Arg, ArgTree, IrBinOp, IrOf, ItemOf, Literals,
};
use slang::stage::parse::{ident_spanned, integer_spanned, spanned, str_spanned, type_named};
use slang::stage::scope::{resolve_variables, verify_proc_names, ScopeNode};
use slang::stage::tokenize::{tokenize, try_tokenize, Span, Token, TokenKind};
use slang::stage::ty::{
    assign_type, call_types, check_not_arg, literal_type, proc_type, verify_bin_op, check_condition,
    verify_literal, ProcSig,
};
use slang::stage::{next_stage, Stage};
use slang::tree::{BinOp, LiteralOf, Marker, Type, UnaryOp};
use slang::Flags;

fn sp(start: usize, end: usize) -> Span {
    Span { start, end }
}

fn custom(span: Span, msg: &'static str) -> Error {
    Error { span, kind: ErrorKind::Custom(msg) }
}

fn message(e: Error) -> (Span, String) {
    match e.kind {
        ErrorKind::Msg(m) => (e.span, m),
        ErrorKind::Custom(m) => (e.span, m.to_string()),
    }
}

#[test]
fn live_tokens_and_spans() {
    let tokens = tokenize("let x = 0x1F;").unwrap();
    let kinds: Vec<TokenKind> = tokens.iter().map(|t| t.kind.clone()).collect();
    assert_eq!(
        kinds,
        vec![
            TokenKind::Let,
            TokenKind::Ident(b"x".to_vec()),
            TokenKind::Equals,
            TokenKind::Integer(31),
            TokenKind::Semi,
        ]
    );
    let spans: Vec<Span> = tokens.iter().map(|t| t.span).collect();
    assert_eq!(spans, vec![sp(0, 3), sp(4, 5), sp(6, 7), sp(8, 12), sp(12, 13)]);
}

#[test]
fn live_integers_in_three_bases() {
    let kinds: Vec<TokenKind> =
        tokenize("10 0b101 0xff").unwrap().into_iter().map(|t| t.kind).collect();
    assert_eq!(
        kinds,
        vec![TokenKind::Integer(10), TokenKind::Integer(5), TokenKind::Integer(255)]
    );
    assert_eq!(tokenize("0x"), Err(custom(sp(0, 2), "Invalid integer")));
    assert_eq!(
        tokenize("99999999999999999999"),
        Err(custom(sp(0, 20), "Invalid integer"))
    );
}

#[test]
fn live_strings_comments_and_errors() {
    let tokens = tokenize("\"hi\" // rest\n;").unwrap();
    assert_eq!(tokens.len(), 2);
    assert_eq!(tokens[0].kind, TokenKind::Str(b"hi".to_vec()));
    assert_eq!(tokens[0].span, sp(0, 4));
    assert_eq!(tokens[1].kind, TokenKind::Semi);
    assert_eq!(tokenize("\"abc"), Err(custom(sp(0, 1), "Missing matching `\"`")));
    assert_eq!(tokenize("a $"), Err(custom(sp(2, 3), "Invalid input")));
    assert_eq!(tokenize("é"), Err(custom(sp(0, 1), "Invalid input")));
    assert!(try_tokenize("// é\n").is_none());
    assert!(try_tokenize("\"é\"").is_none());
    assert_eq!(tokenize("").unwrap().len(), 0);
}

#[test]
fn live_keywords_keep_their_space() {
    let tokens = tokenize("return x;").unwrap();
    assert_eq!(tokens[0].kind, TokenKind::Return);
    assert_eq!(tokens[0].span, sp(0, 6));
    let tokens = tokenize("return;").unwrap();
    assert_eq!(tokens[0].kind, TokenKind::Ident(b"return".to_vec()));
    let tokens = tokenize("extern fn f(...);").unwrap();
    assert_eq!(tokens[0].kind, TokenKind::Extern);
    assert_eq!(tokens[4].kind, TokenKind::Variadic);
}

#[test]
fn stages_run_in_order() {
    assert_eq!(next_stage(Stage::Tokenize), Some(Stage::Parse));
    assert_eq!(next_stage(Stage::Parse), Some(Stage::Variable));
    assert_eq!(next_stage(Stage::Codegen), Some(Stage::Post));
    assert_eq!(next_stage(Stage::Post), None);
}

#[test]
fn output_defaults_to_a_out() {
    let flags = Flags::default();
    assert_eq!(flags.output(), "a.out");
    let flags = Flags { output: Some("prog".to_string()), ..Flags::default() };
    assert_eq!(flags.output(), "prog");
}

#[test]
fn operators_classified_and_shown() {
    assert_eq!(BinOp::AddAssign.classify(), Some(Marker::Assignment));
    assert_eq!(BinOp::Assign.classify(), Some(Marker::Assignment));
    assert_eq!(BinOp::Or.classify(), Some(Marker::Logical));
    assert_eq!(BinOp::Add.classify(), None);
    assert_eq!(BinOp::Le.to_string(), "<=");
    assert_eq!(BinOp::ShlAssign.to_string(), ">>=");
    assert_eq!(Type::Not.to_string(), "()");
    assert_eq!(Type::I16.to_string(), "i16");
    assert!(Type::U8.is_integer());
    assert!(!Type::Str.is_integer());
}

#[test]
fn precedence_and_operator_tokens() {
    assert_eq!(BinOp::max_precedence(), 10);
    assert_eq!(BinOp::Assign.precedence(), 1);
    assert_eq!(BinOp::Or.precedence(), 2);
    assert_eq!(BinOp::Eq.precedence(), 4);
    assert_eq!(BinOp::Shl.precedence(), 8);
    assert_eq!(BinOp::Mod.precedence(), 10);
    assert_eq!(BinOp::from_token(&TokenKind::Equals), Some(BinOp::Assign));
    assert_eq!(BinOp::from_token(&TokenKind::Bang), None);
    assert_eq!(BinOp::from_token(&TokenKind::Xor), Some(BinOp::Xor));
}

#[test]
fn token_contents() {
    let ident = Token { span: sp(1, 2), kind: TokenKind::Ident(b"a".to_vec()) };
    let int = Token { span: sp(3, 4), kind: TokenKind::Integer(7) };
    assert!(matches!(ident_spanned(&ident), Ok((s, v)) if s == sp(1, 2) && v == b"a".to_vec()));
    assert!(matches!(integer_spanned(&int), Ok((s, 7)) if s == sp(3, 4)));
    assert!(integer_spanned(&ident).is_err());
    assert!(str_spanned(&int).is_err());
    assert!(matches!(type_named(&b"u16".to_vec(), sp(0, 3)), Ok(Type::U16)));
    assert!(matches!(type_named(&b"str".to_vec(), sp(0, 3)), Ok(Type::Str)));
    assert!(type_named(&b"u128".to_vec(), sp(0, 4)).is_err());
    assert_eq!(spanned(sp(4, 6), sp(2, 5)), sp(2, 6));
}

#[test]
fn lowering_templates() {
    let labels = if_labels();
    assert_eq!(labels, ["if_condition", "if_body", "if_skip"]);
    assert_eq!(
        if_ir(1, 2, [10, 11, 12]),
        vec![
            ItemOf::Op(IrOf::Label { label: 10 }),
            ItemOf::Sub(1),
            ItemOf::Op(IrOf::JumpZero { label: 12, arg: 1 }),
            ItemOf::Op(IrOf::Label { label: 11 }),
            ItemOf::Sub(2),
            ItemOf::Op(IrOf::Label { label: 12 }),
        ]
    );
    assert_eq!(while_labels(), ["while_condition", "while_body", "while_exit"]);
    let w = while_ir(1, 2, [10, 11, 12]);
    assert_eq!(w[5], ItemOf::Op(IrOf::Jump { label: 10 }));
    assert_eq!(
        return_ir(Some(5), Some(6), 9),
        vec![
            ItemOf::Sub(6),
            ItemOf::Op(IrOf::Store { dst: 5, src: 6 }),
            ItemOf::Op(IrOf::Jump { label: 9 }),
        ]
    );
    assert_eq!(return_ir(None, None, 9), vec![ItemOf::Op(IrOf::Jump { label: 9 })]);
    assert_eq!(block_ir(&vec![3, 4]), vec![ItemOf::Sub(3), ItemOf::Sub(4)]);
    assert_eq!(
        declaration_ir(7, 8),
        vec![ItemOf::Sub(8), ItemOf::Op(IrOf::Store { dst: 7, src: 8 })]
    );
    let mut counter = 4usize;
    let (code, slot) = unary_op_ir(7, 8, UnaryOp::Not, &mut counter);
    assert_eq!(code[1], ItemOf::Op(IrOf::Unary { dst: 7, src: 8, una: UnaryOp::Not }));
    assert_eq!((slot, counter), (Arg::Var(4), 5));
}

#[test]
fn binary_operator_lowering() {
    let mut counter = 0usize;
    assert_eq!(
        bin_op_ir(1, 2, 3, BinOp::Sub, 0, &mut counter).0,
        vec![
            ItemOf::Sub(2),
            ItemOf::Sub(3),
            ItemOf::Op(IrOf::Bin { dst: 1, lhs: 2, rhs: 3, bin: IrBinOp::Sub }),
        ]
    );
    assert_eq!(
        bin_op_ir(1, 2, 3, BinOp::ShlAssign, 0, &mut counter).0[2],
        ItemOf::Op(IrOf::Bin { dst: 2, lhs: 2, rhs: 3, bin: IrBinOp::Shl })
    );
    assert_eq!(
        bin_op_ir(1, 2, 3, BinOp::Assign, 0, &mut counter).0[2],
        ItemOf::Op(IrOf::Store { dst: 2, src: 3 })
    );
    let (or, slot) = bin_op_ir(1, 2, 3, BinOp::Or, 9, &mut counter);
    // Each operator node gets a slot of its own.
    assert_eq!((slot, counter), (Arg::Var(3), 4));
    assert_eq!(or.len(), 6);
    assert_eq!(or[2], ItemOf::Op(IrOf::JumpNotZero { label: 9, arg: 2 }));
    assert_eq!(or[5], ItemOf::Op(IrOf::Label { label: 9 }));
    assert_eq!(IrBinOp::expect_from_ast_bin_op_kind(BinOp::Ge), IrBinOp::Ge);
}

#[test]
fn calls_and_procedures() {
    let procs = vec![(20, b"f".to_vec()), (21, b"g".to_vec()), (22, b"f".to_vec())];
    let mut counter = 7usize;
    assert_eq!(
        call_ir(5, &b"f".to_vec(), &vec![6, 7], sp(0, 1), Type::U64, &procs, &mut counter),
        Ok((
            vec![
                ItemOf::Sub(6),
                ItemOf::Sub(7),
                ItemOf::Op(IrOf::Call { proc: 20, arguments: vec![6, 7], result: Some(5) }),
            ],
            Some(Arg::Var(7))
        ))
    );
    assert_eq!(
        call_ir(5, &b"g".to_vec(), &vec![], sp(0, 1), Type::Not, &procs, &mut counter),
        Ok((vec![ItemOf::Op(IrOf::Call { proc: 21, arguments: vec![], result: None })], None))
    );
    assert_eq!(
        call_ir(5, &b"h".to_vec(), &vec![], sp(2, 3), Type::Not, &procs, &mut counter),
        Err(custom(sp(2, 3), "Undefined procedure"))
    );
    assert_eq!(counter, 8);
    // Below procedure 1: argument 2 and result 3 with slots, then the body
    // 4 holding a literal 5 and an operation 6 with a slot.
    let tree = |node: u64, arg: Option<Arg>, children: Vec<ArgTree>| ArgTree { node, arg, children };
    let below = vec![
        tree(2, Some(Arg::Var(0)), vec![]),
        tree(3, Some(Arg::Var(1)), vec![]),
        tree(4, None, vec![tree(5, Some(Arg::Lit(0)), vec![]), tree(6, Some(Arg::Var(2)), vec![])]),
    ];
    let mut next = 10u64;
    let code = proc_ir(1, &vec![2], Some(3), Some(4), &below, &mut next);
    assert_eq!((code.prologue, code.narrative, next), (10, Some(11), 12));
    assert_eq!(
        code.items,
        vec![
            ItemOf::Op(IrOf::Label { label: 10 }),
            ItemOf::Op(IrOf::Allocate { args: vec![2, 3, 6] }),
            ItemOf::Op(IrOf::LoadArguments { arguments: vec![2] }),
            ItemOf::Op(IrOf::Label { label: 11 }),
            ItemOf::Sub(4),
            ItemOf::Op(IrOf::Label { label: 1 }),
            ItemOf::Op(IrOf::ReturnAndDeallocate { result: Some(3) }),
        ]
    );
    assert_eq!(proc_ir(1, &vec![], None, Some(4), &vec![], &mut next).items.len(), 6);
    let external = proc_ir(1, &vec![], None, None, &vec![], &mut next);
    assert_eq!((external.items.len(), external.narrative, next), (0, None, 15));
}

#[test]
fn literals_are_numbered_once() {
    let mut lits = Literals::new();
    assert_eq!(lits.allocate(LiteralOf::Integer(3)), 0);
    assert_eq!(lits.allocate(LiteralOf::Str(b"x".to_vec())), 1);
    assert_eq!(lits.allocate(LiteralOf::Integer(3)), 0);
    assert_eq!(lits.allocate(LiteralOf::Str(b"x".to_vec())), 1);
    assert_eq!(lits.len(), 2);
    let mut counter = 4;
    assert_eq!(Arg::allocate(&mut counter), Arg::Var(4));
    assert_eq!(counter, 5);
    assert_eq!(layout_of(Type::U16).map(|l| l.size), Some(2));
    assert_eq!(layout_of(Type::Str).map(|l| l.align), Some(8));
    assert!(layout_of(Type::Not).is_none());
}

#[test]
fn data_section_and_labels() {
    let mut lits = Literals::new();
    lits.allocate(LiteralOf::Integer(1));
    lits.allocate(LiteralOf::Str(b"hey".to_vec()));
    assert_eq!(data_section(&lits), ".data\n\td1: .asciz \"hey\"\n");
    assert_eq!(literal_label(12), "d12");
    assert_eq!(asm_label("main", false, false, None), "_main");
    assert_eq!(asm_label("main", true, true, None), "_main_body_epilogue");
    assert_eq!(asm_label("if_skip", false, false, Some("7v1")), "_if_skip_7v1");
}

fn leaf(entity: u64, ident: Option<&str>, is_var: bool, is_decl: bool) -> ScopeNode {
    ScopeNode {
        entity,
        ident: ident.map(|s| s.as_bytes().to_vec()),
        span: sp(entity as usize, entity as usize + 1),
        is_var,
        is_decl,
        is_const: false,
        is_var_decl: is_decl,
        new_scope: false,
        children: Vec::new(),
    }
}

fn scope(entity: u64, children: Vec<ScopeNode>) -> ScopeNode {
    ScopeNode { new_scope: true, children, ..leaf(entity, None, false, false) }
}

#[test]
fn variables_bind_to_their_declarations() {
    let tree = scope(0, vec![
        leaf(1, Some("x"), false, true),
        scope(2, vec![leaf(3, Some("x"), true, false), leaf(4, Some("y"), false, true)]),
        leaf(5, Some("x"), true, false),
    ]);
    assert_eq!(resolve_variables(&tree), Ok(vec![(3, 1), (5, 1)]));
    let tree = scope(0, vec![
        scope(2, vec![leaf(4, Some("y"), false, true)]),
        leaf(5, Some("y"), true, false),
    ]);
    assert_eq!(resolve_variables(&tree), Err(custom(sp(5, 6), "Variable is not declared")));
    let tree = scope(0, vec![leaf(1, Some("x"), false, true), leaf(2, Some("x"), false, true)]);
    assert_eq!(resolve_variables(&tree), Err(custom(sp(2, 3), "Variable redefinition")));
}

#[test]
fn constants_are_visible_before_their_declaration() {
    let mut c = leaf(3, Some("k"), false, false);
    c.is_const = true;
    c.is_var_decl = true;
    let tree = scope(0, vec![leaf(1, Some("k"), true, false), c]);
    assert_eq!(resolve_variables(&tree), Ok(vec![(1, 3)]));
}

#[test]
fn procedure_names_are_unique() {
    let procs = vec![
        (b"f".to_vec(), sp(0, 1)),
        (b"g".to_vec(), sp(2, 3)),
        (b"f".to_vec(), sp(4, 5)),
    ];
    assert_eq!(verify_proc_names(&procs), Err(custom(sp(4, 5), "Procedure redefinition")));
    assert_eq!(verify_proc_names(&procs[..2].to_vec()), Ok(()));
}

#[test]
fn assigning_types() {
    let a = assign_type(Type::U8, None, sp(0, 1), Some(9), true, &vec![4, 5], &vec![6], Some(7)).unwrap();
    assert!(a.insert);
    assert_eq!(a.triggers, vec![9, 4, 5, 6, 7]);
    let a = assign_type(Type::U8, None, sp(0, 1), None, false, &vec![4], &vec![], None).unwrap();
    assert_eq!(a.triggers, Vec::<u64>::new());
    let a = assign_type(Type::U8, Some(Type::U8), sp(0, 1), None, false, &vec![], &vec![], None).unwrap();
    assert!(!a.insert);
    let e = assign_type(Type::U8, Some(Type::I32), sp(0, 1), None, false, &vec![], &vec![], None);
    assert_eq!(
        message(e.err().unwrap()),
        (sp(0, 1), "Expression is `i32` but expected to be `u8`".to_string())
    );
}

#[test]
fn type_checks() {
    assert_eq!(proc_type(None), Type::Not);
    assert_eq!(proc_type(Some(Type::U8)), Type::U8);
    assert_eq!(literal_type(&LiteralOf::Integer(1), true), Some(Type::I32));
    assert_eq!(literal_type(&LiteralOf::Str(vec![]), false), Some(Type::Str));
    assert_eq!(check_condition(Some(Type::U8), sp(0, 1)), Ok(()));
    assert_eq!(
        check_condition(None, sp(0, 1)),
        Err(custom(sp(0, 1), "Expected integer expression"))
    );
    assert_eq!(
        message(check_condition(Some(Type::Str), sp(0, 1)).err().unwrap()).1,
        "Expected integer, got `str`"
    );
    assert_eq!(
        message(verify_literal(&LiteralOf::Str(vec![]), Type::U8, sp(0, 1)).err().unwrap()).1,
        "String is not a valid `u8`"
    );
    assert_eq!(verify_literal(&LiteralOf::Integer(2), Type::I64, sp(0, 1)), Ok(()));
    assert_eq!(
        message(verify_bin_op(BinOp::Add, Type::Str, sp(0, 1)).err().unwrap()).1,
        "`+` expects integer type, got `str`"
    );
    assert_eq!(verify_bin_op(BinOp::Assign, Type::Str, sp(0, 1)), Ok(()));
    assert_eq!(check_not_arg(Type::Not, true, sp(0, 1)), Ok(true));
    assert_eq!(check_not_arg(Type::U8, false, sp(0, 1)), Ok(false));
    assert_eq!(
        message(check_not_arg(Type::Not, false, sp(0, 1)).err().unwrap()).1,
        "Expected value, got `()`"
    );
}

#[test]
fn call_argument_types() {
    let procs = vec![
        ProcSig { name: b"f".to_vec(), arg_types: vec![Type::U8, Type::U16], ty: Type::U64, variadic: false },
        ProcSig { name: b"printf".to_vec(), arg_types: vec![Type::Str], ty: Type::I32, variadic: true },
    ];
    assert_eq!(
        call_types(1, &b"f".to_vec(), &vec![2, 3], sp(0, 1), &procs),
        Ok(vec![(2, Type::U8), (3, Type::U16), (1, Type::U64)])
    );
    assert_eq!(
        call_types(1, &b"printf".to_vec(), &vec![2, 3, 4], sp(0, 1), &procs),
        Ok(vec![(2, Type::Str), (1, Type::I32)])
    );
    assert_eq!(
        message(call_types(1, &b"f".to_vec(), &vec![2], sp(0, 1), &procs).err().unwrap()).1,
        "Expected 2 arguments, got 1"
    );
    assert_eq!(
        call_types(1, &b"h".to_vec(), &vec![], sp(0, 1), &procs),
        Err(custom(sp(0, 1), "Undefined procedure"))
    );
}

#[test]
fn error_positions() {
    let src = "fn main() {\r\n  let x;\n}\n";
    assert_eq!(line_column(src, 0), (1, 1));
    assert_eq!(line_column(src, 3), (1, 4));
    assert_eq!(line_column(src, 15), (2, 3));
    assert_eq!(line_column(src, 13), (2, 12));
    assert_eq!(line_column(src, 22), (3, 9));
}
