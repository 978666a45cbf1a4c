use slang::error::ErrorKind;
use slang::stage::parse::{parse_tokens, ArgDeclOf, Syntax};
use slang::stage::tokenize::{tokenize, Span};
use slang::tree::{BinOp, LiteralOf, Type};

fn parse(src: &str) -> Result<Vec<Syntax>, slang::error::Error> {
    parse_tokens(&tokenize(src).unwrap())
}

fn lit(start: usize, end: usize, n: u64) -> Syntax {
    Syntax::Literal { span: Span { start, end }, literal: LiteralOf::Integer(n) }
}

#[test]
fn a_procedure_with_precedence() {
    // positions: fn 0..2, main 3..7, ( 7, ) 8, -> 10..12, u64 13..16, { 17,
    // return 19..25, 1 26, + 28, 2 30, * 32, 3 34, ; 35, } 37
    let nodes = parse("fn main() -> u64 { return 1 + 2 * 3; }").unwrap();
    assert_eq!(nodes.len(), 1);
    let product = Syntax::BinOp {
        span: Span { start: 30, end: 35 },
        op: BinOp::Mul,
        lhs: Box::new(lit(30, 31, 2)),
        rhs: Box::new(lit(34, 35, 3)),
    };
    let sum = Syntax::BinOp {
        span: Span { start: 26, end: 35 },
        op: BinOp::Add,
        lhs: Box::new(lit(26, 27, 1)),
        rhs: Box::new(product),
    };
    let body = Syntax::Block {
        span: Span { start: 17, end: 38 },
        children: vec![Syntax::Return { span: Span { start: 19, end: 36 }, expr: Some(Box::new(sum)) }],
    };
    assert_eq!(
        nodes[0],
        Syntax::Proc {
            span: Span { start: 0, end: 38 },
            ident: b"main".to_vec(),
            args: vec![],
            variadic: false,
            ret: Some((Span { start: 13, end: 16 }, Type::U64)),
            body: Some(Box::new(body)),
        }
    );
}

#[test]
fn an_extern_procedure_with_variadic_arguments() {
    let nodes = parse("extern fn printf(fmt: str, ...) -> i32;").unwrap();
    match &nodes[0] {
        Syntax::Proc { span, ident, args, variadic, ret, body } => {
            assert_eq!(*span, Span { start: 0, end: 39 });
            assert_eq!(ident, &b"printf".to_vec());
            assert_eq!(
                args,
                &vec![ArgDeclOf { span: Span { start: 17, end: 25 }, ident: b"fmt".to_vec(), ty: Type::Str }]
            );
            assert!(*variadic);
            assert_eq!(ret.unwrap().1, Type::I32);
            assert!(body.is_none());
        }
        other => panic!("expected a procedure, got {other:?}"),
    }
}

#[test]
fn a_declaration_with_a_type_and_parentheses() {
    let nodes = parse("let x: u8 = (1);").unwrap();
    assert_eq!(
        nodes,
        vec![Syntax::VarDecl {
            span: Span { start: 0, end: 16 },
            ident: b"x".to_vec(),
            ty: Some(Type::U8),
            expr: Box::new(lit(12, 15, 1)),
            is_const: false,
        }]
    );
}

#[test]
fn a_constant_declaration() {
    let nodes = parse("const C: u64 = 4;").unwrap();
    assert!(matches!(&nodes[0], Syntax::VarDecl { is_const: true, ty: Some(Type::U64), .. }));
}

#[test]
fn calls_and_assignments() {
    let nodes = parse("x = f(a, 1) && !y;").unwrap();
    match &nodes[0] {
        Syntax::BinOp { op: BinOp::Assign, span, rhs, .. } => {
            assert_eq!(*span, Span { start: 0, end: 18 });
            match &**rhs {
                Syntax::BinOp { op: BinOp::And, lhs, rhs, .. } => {
                    assert!(matches!(&**lhs, Syntax::Call { args, .. } if args.len() == 2));
                    assert!(matches!(&**rhs, Syntax::Not { .. }));
                }
                other => panic!("expected a logical and, got {other:?}"),
            }
        }
        other => panic!("expected an assignment, got {other:?}"),
    }
}

#[test]
fn control_flow_nests_blocks() {
    let nodes = parse("fn f() { while x { if y { } } }").unwrap();
    match &nodes[0] {
        Syntax::Proc { body: Some(b), .. } => match &**b {
            Syntax::Block { children, .. } => {
                assert!(matches!(&children[0], Syntax::While { .. }));
            }
            other => panic!("expected a block, got {other:?}"),
        },
        other => panic!("expected a procedure, got {other:?}"),
    }
}

#[test]
fn a_missing_semicolon_is_reported_at_the_next_token() {
    let err = parse("fn main() { return 1 }").unwrap_err();
    assert_eq!(err.span, Span { start: 21, end: 22 });
    assert!(matches!(err.kind, ErrorKind::Msg(ref m) if m == "Expected `;`"));
}

#[test]
fn a_missing_expression_is_reported_at_the_last_token() {
    let err = parse("let x = ;").unwrap_err();
    assert_eq!(err.span, Span { start: 6, end: 7 });
    assert!(matches!(err.kind, ErrorKind::Custom("Invalid expression")));
}

#[test]
fn an_unknown_type_is_reported() {
    let err = parse("let x: u128 = 1;").unwrap_err();
    assert!(matches!(err.kind, ErrorKind::Custom("Undeclared type")));
}

#[test]
fn a_missing_end_is_reported_at_the_last_token() {
    let err = parse("fn main() {").unwrap_err();
    assert_eq!(err.span, Span { start: 10, end: 11 });
    assert!(matches!(err.kind, ErrorKind::Msg(ref m) if m == "Expected `}`"));
}

#[test]
fn no_tokens_give_no_statements() {
    assert_eq!(parse("").unwrap(), vec![]);
}
