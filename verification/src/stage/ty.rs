//! Type checking of the current front end: what assigning a type to a node
//! implies for its neighbours, and the checks once all nodes are typed.
use crate::error::{Error, ErrorKind};
use crate::stage::ir::Node;
use crate::stage::tokenize::Span;
use crate::text::{
    bytes, bytes_eq, decimal, lemma_ascii_valid, lemma_decimal_ascii, lemma_str_valid, push_decimal,
    push_str, string_bytes, string_from_bytes,
};
use crate::tree::{BinOp, LiteralOf, Literal, Type};
use vstd::prelude::*;
use vstd::utf8::{valid_utf8, valid_utf8_concat};

verus! {

/// Whether `e` is an error at `span` whose composed message has the bytes
/// `text`.
pub open spec fn is_msg(e: Error, span: Span, text: Seq<u8>) -> bool {
    &&& e.span == span
    &&& e.kind matches ErrorKind::Msg(m) && string_bytes(m) == text
}

/// The error at `span` with the message whose bytes are `text`.
fn make_msg(span: Span, text: Vec<u8>) -> (r: Error)
    requires
        valid_utf8(text@),
    ensures
        is_msg(r, span, text@),
{
    let m = string_from_bytes(text);
    span.msg(m)
}

/// The bytes of `a`, `b` and `c` one after the other.
pub open spec fn text3(a: &str, b: &str, c: &str) -> Seq<u8> {
    bytes(a) + bytes(b) + bytes(c)
}

/// A message of three parts.
fn msg3(span: Span, a: &str, b: &str, c: &str) -> (r: Error)
    ensures
        is_msg(r, span, text3(a, b, c)),
{
    let mut t: Vec<u8> = Vec::new();
    push_str(&mut t, a);
    push_str(&mut t, b);
    push_str(&mut t, c);
    proof {
        lemma_str_valid(a);
        lemma_str_valid(b);
        lemma_str_valid(c);
        assert(t@ =~= text3(a, b, c));
        assert(Seq::<u8>::empty() + bytes(a) =~= bytes(a));
        valid_utf8_concat(bytes(a), bytes(b));
        valid_utf8_concat(bytes(a) + bytes(b), bytes(c));
    }
    make_msg(span, t)
}

/// The message for an expression that has one type where another is
/// expected.
pub open spec fn mismatch_text(is: Type, expected: Type) -> Seq<u8> {
    bytes("Expression is `") + bytes(is.name()) + bytes("` but expected to be `") + bytes(expected.name())
        + bytes("`")
}

/// The error at `span` for an expression of type `is` where `expected` is
/// expected.
pub fn mismatch(span: Span, is: Type, expected: Type) -> (r: Error)
    ensures
        is_msg(r, span, mismatch_text(is, expected)),
{
    let mut m: Vec<u8> = Vec::new();
    push_str(&mut m, "Expression is `");
    push_str(&mut m, is.as_str());
    push_str(&mut m, "` but expected to be `");
    push_str(&mut m, expected.as_str());
    push_str(&mut m, "`");
    proof {
        lemma_str_valid("Expression is `");
        lemma_str_valid(is.name());
        lemma_str_valid("` but expected to be `");
        lemma_str_valid(expected.name());
        lemma_str_valid("`");
        assert(m@ =~= mismatch_text(is, expected));
        valid_utf8_concat(bytes("Expression is `"), bytes(is.name()));
        valid_utf8_concat(bytes("Expression is `") + bytes(is.name()), bytes("` but expected to be `"));
        valid_utf8_concat(
            bytes("Expression is `") + bytes(is.name()) + bytes("` but expected to be `"),
            bytes(expected.name()),
        );
        valid_utf8_concat(
            bytes("Expression is `") + bytes(is.name()) + bytes("` but expected to be `") + bytes(
                expected.name(),
            ),
            bytes("`"),
        );
    }
    make_msg(span, m)
}

/// What assigning a type to a node triggers, in order: the declaration it
/// uses, the uses of the declaration it is, its typed children where the
/// type flows down, and its parent where the type flows up.
pub open spec fn spec_triggers(var_of: Option<Node>, is_decl: bool, users: Seq<Node>, down: Seq<Node>, up: Option<Node>) -> Seq<Node> {
    (match var_of {
        Some(v) => seq![v],
        None => seq![],
    }) + (if is_decl {
        users
    } else {
        seq![]
    }) + down + (match up {
        Some(p) => seq![p],
        None => seq![],
    })
}

/// What assigning a type does to a node that has none yet: the type is
/// given to it, and assigned in turn to the nodes to trigger.
pub struct Assigned {
    pub insert: bool,
    pub triggers: Vec<Node>,
}

/// Assigns `ty` to a node that has the type `current`, if any. A node with
/// a type keeps it, and a different one is an error; a node without one
/// gets it and passes it on.
pub fn assign_type(
    ty: Type,
    current: Option<Type>,
    span: Span,
    var_of: Option<Node>,
    is_decl: bool,
    users: &Vec<Node>,
    down: &Vec<Node>,
    up: Option<Node>,
) -> (r: Result<Assigned, Error>)
    ensures
        match current {
            Some(t) => if t != ty {
                r matches Err(e) && is_msg(e, span, mismatch_text(t, ty))
            } else {
                r matches Ok(a) && !a.insert && a.triggers@.len() == 0
            },
            None => r matches Ok(a) && a.insert && a.triggers@ == spec_triggers(
                var_of,
                is_decl,
                users@,
                down@,
                up,
            ),
        },
{
    match current {
        Some(t) => {
            if t != ty {
                return Err(mismatch(span, t, ty));
            }
            Ok(Assigned { insert: false, triggers: Vec::new() })
        },
        None => {
            let mut triggers: Vec<Node> = Vec::new();
            match var_of {
                Some(v) => triggers.push(v),
                None => {},
            }
            let ghost t1 = triggers@;
            if is_decl {
                append(&mut triggers, users);
            }
            let ghost t2 = triggers@;
            append(&mut triggers, down);
            let ghost t3 = triggers@;
            match up {
                Some(p) => triggers.push(p),
                None => {},
            }
            proof {
                assert(t1 =~= match var_of {
                    Some(v) => seq![v],
                    None => seq![],
                });
                assert(t2 =~= t1 + (if is_decl {
                    users@
                } else {
                    seq![]
                }));
                assert(triggers@ =~= t3 + (match up {
                    Some(p) => seq![p],
                    None => seq![],
                }));
            }
            Ok(Assigned { insert: true, triggers })
        },
    }
}

/// Appends the nodes of `b`.
fn append(a: &mut Vec<Node>, b: &Vec<Node>)
    ensures
        final(a)@ == old(a)@ + b@,
{
    let mut i: usize = 0;
    while i < b.len()
        invariant
            0 <= i <= b@.len(),
            a@ == old(a)@ + b@.subrange(0, i as int),
        decreases b@.len() - i,
    {
        a.push(b[i]);
        i += 1;
        assert(a@ =~= old(a)@ + b@.subrange(0, i as int));
    }
    assert(b@.subrange(0, i as int) =~= b@);
}

/// The type of a procedure: that of its result declaration, or `()`.
pub fn proc_type(result: Option<Type>) -> (r: Type)
    ensures
        r == match result {
            Some(t) => t,
            None => Type::Not,
        },
{
    match result {
        Some(t) => t,
        None => Type::Not,
    }
}

/// The type an untyped literal gets: a string is `str` from the start, an
/// integer is `i32` where nothing else decides.
pub fn literal_type(literal: &Literal, inferred: bool) -> (r: Option<Type>)
    ensures
        r == match literal@ {
            LiteralOf::Str(_) => if inferred {
                None::<Type>
            } else {
                Some(Type::Str)
            },
            LiteralOf::Integer(_) => if inferred {
                Some(Type::I32)
            } else {
                None::<Type>
            },
        },
{
    match literal {
        LiteralOf::Str(_) => if inferred {
            None
        } else {
            Some(Type::Str)
        },
        LiteralOf::Integer(_) => if inferred {
            Some(Type::I32)
        } else {
            None
        },
    }
}

/// The signature of a procedure as calls see it.
pub struct ProcSig {
    pub name: Vec<u8>,
    pub arg_types: Vec<Type>,
    pub ty: Type,
    pub variadic: bool,
}

/// The first procedure named `name`, from the `i`-th on.
pub open spec fn find_sig(procs: Seq<ProcSig>, name: Seq<u8>, i: int) -> Option<int>
    decreases procs.len() - i,
{
    if i < 0 || i >= procs.len() {
        None
    } else if procs[i].name@ == name {
        Some(i)
    } else {
        find_sig(procs, name, i + 1)
    }
}

/// The message for a call with the wrong number of arguments.
pub open spec fn arity_text(expected: nat, got: nat) -> Seq<u8> {
    bytes("Expected ") + decimal(expected) + bytes(" arguments, got ") + decimal(got)
}

/// The types a call passes on: each argument gets the type of the
/// corresponding parameter, and the call gets the procedure's type.
pub open spec fn spec_call_types(call: Node, args: Seq<Node>, sig: ProcSig) -> Seq<(Node, Type)> {
    Seq::new(
        if args.len() < sig.arg_types@.len() {
            args.len()
        } else {
            sig.arg_types@.len()
        },
        |i: int| (args[i], sig.arg_types@[i]),
    ).push((call, sig.ty))
}

/// The types that a call of `name` with arguments `args` assigns, or the
/// error for an undefined procedure or a wrong number of arguments: fewer
/// than the parameters, or more where the procedure is not variadic.
pub fn call_types(call: Node, name: &Vec<u8>, args: &Vec<Node>, span: Span, procs: &Vec<ProcSig>) -> (r: Result<
    Vec<(Node, Type)>,
    Error,
>)
    ensures
        match find_sig(procs@, name@, 0) {
            None => r matches Err(e) && e == (Error { span, kind: ErrorKind::Custom("Undefined procedure") }),
            Some(i) => {
                let sig = procs@[i];
                if args@.len() < sig.arg_types@.len() || (args@.len() > sig.arg_types@.len()
                    && !sig.variadic) {
                    r matches Err(e) && is_msg(
                        e,
                        span,
                        arity_text(sig.arg_types@.len(), args@.len()),
                    )
                } else {
                    r matches Ok(v) && v@ == spec_call_types(call, args@, sig)
                }
            },
        },
{
    let mut i: usize = 0;
    while i < procs.len()
        invariant
            0 <= i <= procs@.len(),
            find_sig(procs@, name@, 0) == find_sig(procs@, name@, i as int),
        decreases procs@.len() - i,
    {
        if bytes_eq(&procs[i].name, name) {
            let sig = &procs[i];
            let n = sig.arg_types.len();
            if args.len() < n || (args.len() > n && !sig.variadic) {
                let mut m: Vec<u8> = Vec::new();
                push_str(&mut m, "Expected ");
                push_decimal(&mut m, n as u64);
                push_str(&mut m, " arguments, got ");
                push_decimal(&mut m, args.len() as u64);
                proof {
                    lemma_str_valid("Expected ");
                    lemma_str_valid(" arguments, got ");
                    lemma_decimal_ascii(n as nat);
                    lemma_decimal_ascii(args@.len());
                    lemma_ascii_valid(decimal(n as nat));
                    lemma_ascii_valid(decimal(args@.len()));
                    assert(m@ =~= arity_text(n as nat, args@.len()));
                    valid_utf8_concat(bytes("Expected "), decimal(n as nat));
                    valid_utf8_concat(bytes("Expected ") + decimal(n as nat), bytes(" arguments, got "));
                    valid_utf8_concat(
                        bytes("Expected ") + decimal(n as nat) + bytes(" arguments, got "),
                        decimal(args@.len()),
                    );
                }
                return Err(make_msg(span, m));
            }
            let mut out: Vec<(Node, Type)> = Vec::new();
            let mut k: usize = 0;
            while k < args.len() && k < n
                invariant
                    n == sig.arg_types@.len(),
                    0 <= k <= args@.len(),
                    k <= n,
                    out@.len() == k,
                    forall|j: int| 0 <= j < k ==> out@[j] == (args@[j], sig.arg_types@[j]),
                decreases args@.len() - k,
            {
                out.push((args[k], sig.arg_types[k]));
                k += 1;
            }
            out.push((call, sig.ty));
            assert(out@ =~= spec_call_types(call, args@, *sig));
            return Ok(out);
        }
        i += 1;
    }
    Err(span.custom("Undefined procedure"))
}

/// The message for a condition that is not an integer.
pub open spec fn condition_text(ty: Type) -> Seq<u8> {
    text3("Expected integer, got `", ty.name(), "`")
}

/// Checks the type of one condition: it must have one, and an integer one.
pub fn check_condition(ty: Option<Type>, span: Span) -> (r: Result<(), Error>)
    ensures
        match ty {
            None => r matches Err(e) && e == (Error {
                span,
                kind: ErrorKind::Custom("Expected integer expression"),
            }),
            Some(t) => if t.spec_is_integer() {
                r is Ok
            } else {
                r matches Err(e) && is_msg(e, span, condition_text(t))
            },
        },
{
    match ty {
        None => Err(span.custom("Expected integer expression")),
        Some(t) => if t.is_integer() {
            Ok(())
        } else {
            Err(msg3(span, "Expected integer, got `", t.as_str(), "`"))
        },
    }
}

/// Checks that a literal has a type it can have: an integer type for an
/// integer, `str` for a string.
pub fn verify_literal(literal: &Literal, ty: Type, span: Span) -> (r: Result<(), Error>)
    ensures
        match literal@ {
            LiteralOf::Integer(_) => if ty.spec_is_integer() {
                r is Ok
            } else {
                r matches Err(e) && is_msg(e, span, text3("Integer is not a valid `", ty.name(), "`"))
            },
            LiteralOf::Str(_) => if ty == Type::Str {
                r is Ok
            } else {
                r matches Err(e) && is_msg(e, span, text3("String is not a valid `", ty.name(), "`"))
            },
        },
{
    match literal {
        LiteralOf::Integer(_) => if ty.is_integer() {
            Ok(())
        } else {
            Err(msg3(span, "Integer is not a valid `", ty.as_str(), "`"))
        },
        LiteralOf::Str(_) => if ty == Type::Str {
            Ok(())
        } else {
            Err(msg3(span, "String is not a valid `", ty.as_str(), "`"))
        },
    }
}

/// The message for an operator applied to a type that is not an integer.
pub open spec fn bin_op_text(op: BinOp, ty: Type) -> Seq<u8> {
    bytes("`") + bytes(op.symbol()) + bytes("` expects integer type, got `") + bytes(ty.name()) + bytes(
        "`",
    )
}

/// Checks that an operator other than plain assignment works on integers.
pub fn verify_bin_op(op: BinOp, ty: Type, span: Span) -> (r: Result<(), Error>)
    ensures
        if op == BinOp::Assign || ty.spec_is_integer() {
            r is Ok
        } else {
            r matches Err(e) && is_msg(e, span, bin_op_text(op, ty))
        },
{
    if op == BinOp::Assign || ty.is_integer() {
        return Ok(());
    }
    let mut m: Vec<u8> = Vec::new();
    push_str(&mut m, "`");
    push_str(&mut m, op.as_str());
    push_str(&mut m, "` expects integer type, got `");
    push_str(&mut m, ty.as_str());
    push_str(&mut m, "`");
    proof {
        lemma_str_valid("`");
        lemma_str_valid(op.symbol());
        lemma_str_valid("` expects integer type, got `");
        lemma_str_valid(ty.name());
        assert(m@ =~= bin_op_text(op, ty));
        valid_utf8_concat(bytes("`"), bytes(op.symbol()));
        valid_utf8_concat(bytes("`") + bytes(op.symbol()), bytes("` expects integer type, got `"));
        valid_utf8_concat(
            bytes("`") + bytes(op.symbol()) + bytes("` expects integer type, got `"),
            bytes(ty.name()),
        );
        valid_utf8_concat(
            bytes("`") + bytes(op.symbol()) + bytes("` expects integer type, got `") + bytes(ty.name()),
            bytes("`"),
        );
    }
    Err(make_msg(span, m))
}

/// What becomes of an operand of type `()`: a call keeps no operand, which
/// `Ok(true)` says; another node is an error. Other types keep theirs.
pub fn check_not_arg(ty: Type, is_call: bool, span: Span) -> (r: Result<bool, Error>)
    ensures
        ty != Type::Not ==> r == Ok::<bool, Error>(false),
        ty == Type::Not && is_call ==> r == Ok::<bool, Error>(true),
        ty == Type::Not && !is_call ==> (r matches Err(e) && is_msg(
            e,
            span,
            text3("Expected value, got `", ty.name(), "`"),
        )),
{
    if ty != Type::Not {
        Ok(false)
    } else if is_call {
        Ok(true)
    } else {
        Err(msg3(span, "Expected value, got `", ty.as_str(), "`"))
    }
}

/// Whether a literal may have a type: an integer any integer type, a string
/// `str`.
pub open spec fn literal_fits(l: LiteralOf<Seq<u8>>, ty: Type) -> bool {
    match l {
        LiteralOf::Integer(_) => ty.spec_is_integer(),
        LiteralOf::Str(_) => ty == Type::Str,
    }
}

/// The message for a literal that does not fit its type.
pub open spec fn literal_text(l: LiteralOf<Seq<u8>>, ty: Type) -> Seq<u8> {
    match l {
        LiteralOf::Integer(_) => text3("Integer is not a valid `", ty.name(), "`"),
        LiteralOf::Str(_) => text3("String is not a valid `", ty.name(), "`"),
    }
}

/// Checks every typed literal of a program, in order: the first one that
/// does not fit its type gives the error.
pub fn verify_literals(literals: &Vec<(Literal, Type, Span)>) -> (r: Result<(), Error>)
    ensures
        r is Ok <==> forall|i: int|
            0 <= i < literals@.len() ==> literal_fits(#[trigger] literals@[i].0@, literals@[i].1),
        r matches Err(e) ==> exists|i: int|
            0 <= i < literals@.len() && !literal_fits(#[trigger] literals@[i].0@, literals@[i].1)
                && (forall|j: int| 0 <= j < i ==> literal_fits(#[trigger] literals@[j].0@, literals@[j].1))
                && is_msg(e, literals@[i].2, literal_text(literals@[i].0@, literals@[i].1)),
{
    let mut i: usize = 0;
    while i < literals.len()
        invariant
            0 <= i <= literals@.len(),
            forall|j: int| 0 <= j < i ==> literal_fits(#[trigger] literals@[j].0@, literals@[j].1),
        decreases literals@.len() - i,
    {
        let checked = verify_literal(&literals[i].0, literals[i].1, literals[i].2);
        if checked.is_err() {
            return checked;
        }
        i = i + 1;
    }
    Ok(())
}

/// Whether an operator may have a type: plain assignment any, the others
/// only an integer type.
pub open spec fn bin_op_fits(op: BinOp, ty: Type) -> bool {
    op == BinOp::Assign || ty.spec_is_integer()
}

/// Checks every typed operator of a program, in order: the first one that
/// does not work on its type gives the error.
pub fn verify_bin_ops(ops: &Vec<(BinOp, Type, Span)>) -> (r: Result<(), Error>)
    ensures
        r is Ok <==> forall|i: int| 0 <= i < ops@.len() ==> bin_op_fits(#[trigger] ops@[i].0, ops@[i].1),
        r matches Err(e) ==> exists|i: int|
            0 <= i < ops@.len() && !bin_op_fits(#[trigger] ops@[i].0, ops@[i].1)
                && (forall|j: int| 0 <= j < i ==> bin_op_fits(#[trigger] ops@[j].0, ops@[j].1))
                && is_msg(e, ops@[i].2, bin_op_text(ops@[i].0, ops@[i].1)),
{
    let mut i: usize = 0;
    while i < ops.len()
        invariant
            0 <= i <= ops@.len(),
            forall|j: int| 0 <= j < i ==> bin_op_fits(#[trigger] ops@[j].0, ops@[j].1),
        decreases ops@.len() - i,
    {
        let checked = verify_bin_op(ops[i].0, ops[i].1, ops[i].2);
        if checked.is_err() {
            return checked;
        }
        i = i + 1;
    }
    Ok(())
}

/// Whether a condition has a type and an integer one.
pub open spec fn condition_fits(ty: Option<Type>) -> bool {
    ty matches Some(t) && t.spec_is_integer()
}

/// The error for a condition without an integer type.
pub open spec fn condition_error(e: Error, ty: Option<Type>, span: Span) -> bool {
    match ty {
        None => e == (Error { span, kind: ErrorKind::Custom("Expected integer expression") }),
        Some(t) => is_msg(e, span, condition_text(t)),
    }
}

/// Checks the condition of every `if` and `while` of a program, in order:
/// the first one without an integer type gives the error.
pub fn verify_condition(conditions: &Vec<(Option<Type>, Span)>) -> (r: Result<(), Error>)
    ensures
        r is Ok <==> forall|i: int|
            0 <= i < conditions@.len() ==> condition_fits(#[trigger] conditions@[i].0),
        r matches Err(e) ==> exists|i: int|
            0 <= i < conditions@.len() && !condition_fits(#[trigger] conditions@[i].0)
                && (forall|j: int| 0 <= j < i ==> condition_fits(#[trigger] conditions@[j].0))
                && condition_error(e, conditions@[i].0, conditions@[i].1),
{
    let mut i: usize = 0;
    while i < conditions.len()
        invariant
            0 <= i <= conditions@.len(),
            forall|j: int| 0 <= j < i ==> condition_fits(#[trigger] conditions@[j].0),
        decreases conditions@.len() - i,
    {
        let checked = check_condition(conditions[i].0, conditions[i].1);
        if checked.is_err() {
            return checked;
        }
        i = i + 1;
    }
    Ok(())
}

/// Checks that every node that needs a type got one: the first that did
/// not gives the error.
pub fn verify_typed(nodes: &Vec<(Option<Type>, Span)>) -> (r: Result<(), Error>)
    ensures
        r is Ok <==> forall|i: int| 0 <= i < nodes@.len() ==> (#[trigger] nodes@[i].0) is Some,
        r matches Err(e) ==> exists|i: int|
            0 <= i < nodes@.len() && (#[trigger] nodes@[i].0) is None
                && (forall|j: int| 0 <= j < i ==> (#[trigger] nodes@[j].0) is Some)
                && e == (Error { span: nodes@[i].1, kind: ErrorKind::Custom("Failed to infer type") }),
{
    let mut i: usize = 0;
    while i < nodes.len()
        invariant
            0 <= i <= nodes@.len(),
            forall|j: int| 0 <= j < i ==> (#[trigger] nodes@[j].0) is Some,
        decreases nodes@.len() - i,
    {
        if nodes[i].0.is_none() {
            return Err(nodes[i].1.custom("Failed to infer type"));
        }
        i = i + 1;
    }
    Ok(())
}

/// Whether a declaration is a constant without a written type.
pub open spec fn untyped_const(decl: (bool, Option<Type>, Span)) -> bool {
    decl.0 && decl.1 is None
}

/// Checks that every constant declaration writes its type, given each
/// declaration as whether it is constant, its written type and its span:
/// the first constant without one gives the error.
pub fn verify_const_decls(decls: &Vec<(bool, Option<Type>, Span)>) -> (r: Result<(), Error>)
    ensures
        r is Ok <==> forall|i: int| 0 <= i < decls@.len() ==> !untyped_const(#[trigger] decls@[i]),
        r matches Err(e) ==> exists|i: int|
            0 <= i < decls@.len() && untyped_const(#[trigger] decls@[i])
                && (forall|j: int| 0 <= j < i ==> !untyped_const(#[trigger] decls@[j]))
                && e == (Error {
                span: decls@[i].2,
                kind: ErrorKind::Custom("Constant requires explicit type"),
            }),
{
    let mut i: usize = 0;
    while i < decls.len()
        invariant
            0 <= i <= decls@.len(),
            forall|j: int| 0 <= j < i ==> !untyped_const(#[trigger] decls@[j]),
        decreases decls@.len() - i,
    {
        if decls[i].0 && decls[i].1.is_none() {
            return Err(decls[i].2.custom("Constant requires explicit type"));
        }
        i = i + 1;
    }
    Ok(())
}

/// The calls among operands of type `()`, in order: they keep no operand.
pub open spec fn not_calls(args: Seq<(Node, Type, bool, Span)>) -> Seq<Node>
    decreases args.len(),
{
    if args.len() == 0 {
        seq![]
    } else {
        let rest = not_calls(args.drop_last());
        let a = args.last();
        if a.1 == Type::Not && a.2 {
            rest.push(a.0)
        } else {
            rest
        }
    }
}

/// Whether an operand is of type `()` without being a call.
pub open spec fn bad_not_arg(a: (Node, Type, bool, Span)) -> bool {
    a.1 == Type::Not && !a.2
}

/// Checks the type of every operand, given as its node, type, whether it is
/// a call, and span: an operand of type `()` is an error, unless it is a
/// call, which then keeps no operand. Gives those calls, in order, or the
/// error of the first operand in error.
pub fn check_not_args(args: &Vec<(Node, Type, bool, Span)>) -> (r: Result<Vec<Node>, Error>)
    ensures
        r is Ok <==> forall|i: int| 0 <= i < args@.len() ==> !bad_not_arg(#[trigger] args@[i]),
        r matches Ok(v) ==> v@ == not_calls(args@),
        r matches Err(e) ==> exists|i: int|
            0 <= i < args@.len() && bad_not_arg(#[trigger] args@[i])
                && (forall|j: int| 0 <= j < i ==> !bad_not_arg(#[trigger] args@[j]))
                && is_msg(e, args@[i].3, text3("Expected value, got `", Type::Not.name(), "`")),
{
    let mut out: Vec<Node> = Vec::new();
    let mut i: usize = 0;
    while i < args.len()
        invariant
            0 <= i <= args@.len(),
            forall|j: int| 0 <= j < i ==> !bad_not_arg(#[trigger] args@[j]),
            out@ == not_calls(args@.subrange(0, i as int)),
        decreases args@.len() - i,
    {
        assert(args@.subrange(0, i + 1).drop_last() =~= args@.subrange(0, i as int));
        match check_not_arg(args[i].1, args[i].2, args[i].3) {
            Err(e) => {
                return Err(e);
            },
            Ok(dropped) => {
                if dropped {
                    out.push(args[i].0);
                }
            },
        }
        i = i + 1;
    }
    assert(args@.subrange(0, args@.len() as int) =~= args@);
    Ok(out)
}

/// A call of a procedure: the call node, the name it calls, its argument
/// nodes and its span.
pub struct CallSite {
    pub call: Node,
    pub name: Vec<u8>,
    pub args: Vec<Node>,
    pub span: Span,
}

/// Whether a call names a procedure and passes it a number of arguments
/// it takes.
pub open spec fn call_ok(c: CallSite, procs: Seq<ProcSig>) -> bool {
    match find_sig(procs, c.name@, 0) {
        None => false,
        Some(i) => !(c.args@.len() < procs[i].arg_types@.len() || (c.args@.len()
            > procs[i].arg_types@.len() && !procs[i].variadic)),
    }
}

/// Whether `e` is the error of a call that is not fine.
pub open spec fn call_error(c: CallSite, procs: Seq<ProcSig>, e: Error) -> bool {
    match find_sig(procs, c.name@, 0) {
        None => e == (Error { span: c.span, kind: ErrorKind::Custom("Undefined procedure") }),
        Some(i) => is_msg(e, c.span, arity_text(procs[i].arg_types@.len(), c.args@.len())),
    }
}

/// The types that the calls pass on, call after call.
pub open spec fn call_events(calls: Seq<CallSite>, procs: Seq<ProcSig>) -> Seq<(Node, Type)>
    decreases calls.len(),
{
    if calls.len() == 0 {
        seq![]
    } else {
        let c = calls.last();
        call_events(calls.drop_last(), procs) + spec_call_types(
            c.call,
            c.args@,
            procs[find_sig(procs, c.name@, 0).unwrap()],
        )
    }
}

/// The types that every call passes on to its arguments and to itself, in
/// order; the first call that names no procedure, or passes a wrong number
/// of arguments, gives the error.
pub fn propagate_call_exprs(calls: &Vec<CallSite>, procs: &Vec<ProcSig>) -> (r: Result<Vec<(Node, Type)>, Error>)
    ensures
        r is Ok <==> forall|k: int| 0 <= k < calls@.len() ==> call_ok(#[trigger] calls@[k], procs@),
        r matches Ok(v) ==> v@ == call_events(calls@, procs@),
        r matches Err(e) ==> exists|k: int|
            0 <= k < calls@.len() && !call_ok(#[trigger] calls@[k], procs@) && (forall|j: int|
                0 <= j < k ==> call_ok(#[trigger] calls@[j], procs@)) && call_error(calls@[k], procs@, e),
{
    let mut out: Vec<(Node, Type)> = Vec::new();
    let mut i: usize = 0;
    while i < calls.len()
        invariant
            0 <= i <= calls@.len(),
            forall|k: int| 0 <= k < i ==> call_ok(#[trigger] calls@[k], procs@),
            out@ == call_events(calls@.subrange(0, i as int), procs@),
        decreases calls@.len() - i,
    {
        assert(calls@.subrange(0, i + 1).drop_last() =~= calls@.subrange(0, i as int));
        assert(calls@.subrange(0, i + 1).last() == calls@[i as int]);
        let c = &calls[i];
        match call_types(c.call, &c.name, &c.args, c.span, procs) {
            Err(e) => {
                return Err(e);
            },
            Ok(v) => {
                let ghost before = out@;
                let mut k: usize = 0;
                while k < v.len()
                    invariant
                        0 <= k <= v@.len(),
                        out@ == before + v@.subrange(0, k as int),
                    decreases v@.len() - k,
                {
                    out.push(v[k]);
                    k = k + 1;
                    assert(out@ =~= before + v@.subrange(0, k as int));
                }
                assert(v@.subrange(0, k as int) =~= v@);
            },
        }
        i = i + 1;
    }
    assert(calls@.subrange(0, calls@.len() as int) =~= calls@);
    Ok(out)
}

} // verus!
