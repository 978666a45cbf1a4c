use slang::codegen::assemble;
use slang::ir::{ir, try_ir, ArgOf, Ir, IrBinOpKind};
use slang::parse::{parse, try_parse, ErrorKindOf};
use slang::tokenize::{tokenize, Token, TokenKind};

/// The lexer makes no colon token, while the parser reads one between a
/// parameter and its type; these sources write that colon as `;`, which
/// is swapped for it here.
fn typed_tokens(src: &str) -> Vec<Token> {
    tokenize(src)
        .unwrap()
        .into_iter()
        .map(|t| if t.kind == TokenKind::Semi { Token { span: t.span, kind: TokenKind::Colon } } else { t })
        .collect()
}

const PROGRAM: &str = "fn main() -> u64 {\n    return 1 + 2;\n}\n";

#[test]
fn lowering_a_function() {
    let tokens = tokenize(PROGRAM).unwrap();
    let tree = parse(&tokens).unwrap();
    let code = ir(&tree).unwrap();
    assert_eq!(code.len(), 10);
    assert_eq!(code[0], Ir::Label { label: b"main".to_vec() });
    assert_eq!(code[1], Ir::Label { label: b"main_prelude".to_vec() });
    match &code[2] {
        Ir::Allocate { size, slots } => {
            assert_eq!(*size, 16);
            assert_eq!(slots.len(), 2);
            assert_eq!(slots[1].aligned_offset, 8);
        }
        other => panic!("expected an allocation, got {other:?}"),
    }
    assert_eq!(code[4], Ir::Label { label: b"main_body".to_vec() });
    assert_eq!(
        code[5],
        Ir::Bin {
            dst: ArgOf::Var(1),
            lhs: ArgOf::Lit(1),
            rhs: ArgOf::Lit(2),
            bin: IrBinOpKind::Add,
        }
    );
    assert_eq!(code[6], Ir::Store { dst: ArgOf::Var(0), src: ArgOf::Var(1) });
    assert_eq!(code[7], Ir::Jump { label: b"main_epilogue".to_vec() });
    assert_eq!(code[8], Ir::Label { label: b"main_epilogue".to_vec() });
}

#[test]
fn compiling_a_function() {
    let tokens = tokenize(PROGRAM).unwrap();
    let tree = parse(&tokens).unwrap();
    let code = ir(&tree).unwrap();
    let text = String::from_utf8(assemble(&code)).unwrap();
    let expected = ".global _start\n_start:\n\tbl main\n\tb _exit\n\
        main:\n\
        main_prelude:\n\
        \tsub sp, sp, 32\n\tstp x29, x30, [sp, 16]\n\tadd x29, sp, 16\n\
        main_body:\n\
        \tmov x10, 1\n\tmov x11, 2\n\tadd x9, x10, x11\n\tstr x9, [x29, -16]\n\
        \tldr x9, [x29, -16]\n\tstr x9, [x29, -8]\n\
        \tb main_epilogue\n\
        main_epilogue:\n\
        \tldr x0, [x29, -8]\n\tldp x29, x30, [sp, 16]\n\tadd sp, sp, 32\n\tret\n";
    assert_eq!(text, expected);
}

#[test]
fn undefined_variables_are_reported() {
    let tokens = tokenize("fn main() {\n    return x;\n}\n").unwrap();
    let tree = parse(&tokens).unwrap();
    assert!(ir(&tree).is_err());
}

#[test]
fn statements_outside_functions_are_rejected() {
    let tokens = tokenize("return 1;").unwrap();
    let tree = parse(&tokens).unwrap();
    assert!(ir(&tree).is_err());
}

#[test]
fn parsing_gives_up_on_a_missing_semicolon_at_the_end() {
    let tokens = tokenize("return 1").unwrap();
    assert!(try_parse(&tokens).is_none());
}

#[test]
fn parsing_reports_an_unmatched_brace() {
    let tokens = tokenize("fn main() { return 1;").unwrap();
    let err = try_parse(&tokens).unwrap().unwrap_err();
    assert!(matches!(err.kind, ErrorKindOf::UnmatchedDelimiter { .. }));
}

#[test]
fn parsing_gives_up_on_a_parameter_that_is_not_u64() {
    let tokens = typed_tokens("fn f(a ; u8) { }");
    assert!(try_parse(&tokens).is_none());
}

#[test]
fn parsing_a_function_with_try_parse() {
    let tokens = tokenize(PROGRAM).unwrap();
    let tree = try_parse(&tokens).unwrap().unwrap();
    assert_eq!(tree.len(), 1);
}

#[test]
fn lowering_gives_up_on_a_nested_function() {
    let tokens = tokenize("fn main() {
    fn inner() { }
}
").unwrap();
    let tree = parse(&tokens).unwrap();
    assert!(try_ir(&tree).is_none());
}

#[test]
fn lowering_gives_up_on_two_arguments_of_one_name() {
    let tokens = typed_tokens("fn f(a ; u64, a ; u64) { }");
    let tree = parse(&tokens).unwrap();
    assert!(try_ir(&tree).is_none());
}

#[test]
fn lowering_with_try_ir_matches_ir() {
    let tokens = tokenize(PROGRAM).unwrap();
    let tree = parse(&tokens).unwrap();
    assert_eq!(try_ir(&tree).unwrap().unwrap(), ir(&tree).unwrap());
}
