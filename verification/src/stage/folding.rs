//! The constant-folding stage over the nodes of a program. Each pass turns
//! the variables of a constant whose expression is a literal into that
//! literal, then every operator over two integer literals into the literal
//! of its value, removing the two operands; passes run until one changes
//! nothing. Nodes name each other by their position in the node table.
use crate::error::{Error, ErrorKind};
use crate::stage::fold::{defined, evaluates, fold_literal_leaf, fold_value, value_of};
use crate::stage::tokenize::Span;
use crate::tree::{BinOp, Literal, LiteralOf, LiteralV, Marker, Type};
use vstd::prelude::*;

verus! {

/// A node of a program as the constant folding sees it, generic over the
/// literals it holds.
#[derive(Debug, PartialEq, Eq)]
pub enum FoldNodeOf<L> {
    /// A literal.
    Lit(L),
    /// An operator of type `ty` over the nodes `lhs` and `rhs`.
    Bin { op: BinOp, ty: Type, lhs: usize, rhs: usize },
    /// A variable of the declaration `decl`.
    Var { decl: usize },
    /// A constant declaration whose expression is the node `expr`.
    Const { expr: usize },
    /// Any other node, declarations that are not constant among them.
    Other,
    /// A node that folding removed.
    Gone,
}

pub type FoldNode = FoldNodeOf<Literal>;

pub type FoldNodeV = FoldNodeOf<LiteralV>;

impl View for FoldNodeOf<Literal> {
    type V = FoldNodeOf<LiteralV>;

    open spec fn view(&self) -> FoldNodeOf<LiteralV> {
        match self {
            FoldNodeOf::Lit(l) => FoldNodeOf::Lit(l@),
            FoldNodeOf::Bin { op, ty, lhs, rhs } => FoldNodeOf::Bin {
                op: *op,
                ty: *ty,
                lhs: *lhs,
                rhs: *rhs,
            },
            FoldNodeOf::Var { decl } => FoldNodeOf::Var { decl: *decl },
            FoldNodeOf::Const { expr } => FoldNodeOf::Const { expr: *expr },
            FoldNodeOf::Other => FoldNodeOf::Other,
            FoldNodeOf::Gone => FoldNodeOf::Gone,
        }
    }
}

impl FoldNodeOf<Literal> {
    /// A node equal to this one.
    pub fn copy(&self) -> (r: FoldNode)
        ensures
            r@ == self@,
    {
        match self {
            FoldNodeOf::Lit(l) => FoldNodeOf::Lit(l.copy()),
            FoldNodeOf::Bin { op, ty, lhs, rhs } => FoldNodeOf::Bin {
                op: *op,
                ty: *ty,
                lhs: *lhs,
                rhs: *rhs,
            },
            FoldNodeOf::Var { decl } => FoldNodeOf::Var { decl: *decl },
            FoldNodeOf::Const { expr } => FoldNodeOf::Const { expr: *expr },
            FoldNodeOf::Other => FoldNodeOf::Other,
            FoldNodeOf::Gone => FoldNodeOf::Gone,
        }
    }
}

/// The values of the nodes of a table.
pub open spec fn world(w: Seq<FoldNode>) -> Seq<FoldNodeV> {
    w.map_values(|n: FoldNode| n@)
}

/// The literal that the constant declared at `d` folded to, if its
/// expression is a literal.
pub open spec fn const_value(w: Seq<FoldNodeV>, d: int) -> Option<LiteralV> {
    if 0 <= d < w.len() {
        match w[d] {
            FoldNodeOf::Const { expr } => if expr < w.len() {
                match w[expr as int] {
                    FoldNodeOf::Lit(l) => Some(l),
                    _ => None,
                }
            } else {
                None
            },
            _ => None,
        }
    } else {
        None
    }
}

/// Whether the node at `i` is a variable of a constant that folded.
pub open spec fn replaced(w: Seq<FoldNodeV>, i: int) -> bool {
    w[i] matches FoldNodeOf::Var { decl } && const_value(w, decl as int) is Some
}

/// The node at `i` once the variables of folded constants are replaced.
pub open spec fn var_step(w: Seq<FoldNodeV>, i: int) -> FoldNodeV {
    match w[i] {
        FoldNodeOf::Var { decl } => match const_value(w, decl as int) {
            Some(l) => FoldNodeOf::Lit(l),
            None => w[i],
        },
        _ => w[i],
    }
}

/// The table once the variables of folded constants are replaced, all
/// read from the table as it was.
pub open spec fn vars_pass(w: Seq<FoldNodeV>) -> Seq<FoldNodeV> {
    Seq::new(w.len(), |i: int| var_step(w, i))
}

/// The value of the integer literal at `k`, if that node is one.
pub open spec fn int_at(w: Seq<FoldNodeV>, k: usize) -> Option<u64> {
    if k < w.len() {
        match w[k as int] {
            FoldNodeOf::Lit(LiteralOf::Integer(v)) => Some(v),
            _ => None,
        }
    } else {
        None
    }
}

/// Whether the node at `i` is an operator that folds: one that evaluates,
/// over two integer literals.
pub open spec fn foldable(w: Seq<FoldNodeV>, i: int) -> bool {
    match w[i] {
        FoldNodeOf::Bin { op, ty, lhs, rhs } => evaluates(op) && int_at(w, lhs) is Some && int_at(
            w,
            rhs,
        ) is Some,
        _ => false,
    }
}

/// Whether the node at `i`, if it folds, has a value: its type is an
/// integer type and a division or remainder is not by zero.
pub open spec fn folds_cleanly(w: Seq<FoldNodeV>, i: int) -> bool {
    match w[i] {
        FoldNodeOf::Bin { op, ty, lhs, rhs } => foldable(w, i) ==> ty.spec_is_integer() && defined(
            ty,
            int_at(w, rhs).unwrap(),
            op,
        ),
        _ => true,
    }
}

/// The literal that the operator at `i` folds to.
pub open spec fn folded_value(w: Seq<FoldNodeV>, i: int) -> FoldNodeV {
    match w[i] {
        FoldNodeOf::Bin { op, ty, lhs, rhs } => FoldNodeOf::Lit(
            LiteralOf::Integer(fold_value(ty, int_at(w, lhs).unwrap(), int_at(w, rhs).unwrap(), op)),
        ),
        _ => w[i],
    }
}

/// Whether the node at `j` is an operand of an operator that folds.
pub open spec fn operand_folded(w: Seq<FoldNodeV>, j: int) -> bool {
    exists|i: int|
        0 <= i < w.len() && #[trigger] foldable(w, i) && (w[i]->lhs == j || w[i]->rhs == j)
}

/// The node at `j` once the operators over literals are folded.
pub open spec fn leaf_step(w: Seq<FoldNodeV>, j: int) -> FoldNodeV {
    if foldable(w, j) {
        folded_value(w, j)
    } else if operand_folded(w, j) {
        FoldNodeOf::Gone
    } else {
        w[j]
    }
}

/// The table once every operator over two integer literals, as the table
/// was, is folded and its operands removed.
pub open spec fn leaves_pass(w: Seq<FoldNodeV>) -> Seq<FoldNodeV> {
    Seq::new(w.len(), |j: int| leaf_step(w, j))
}

/// One pass of the folding.
pub open spec fn fold_pass(w: Seq<FoldNodeV>) -> Seq<FoldNodeV> {
    leaves_pass(vars_pass(w))
}

/// Whether a pass over `w` gives every operator it folds a value.
pub open spec fn pass_ok(w: Seq<FoldNodeV>) -> bool {
    forall|i: int| 0 <= i < w.len() ==> #[trigger] folds_cleanly(vars_pass(w), i)
}

/// Whether a pass over `w` changes anything: replaces a variable or folds
/// an operator.
pub open spec fn changes(w: Seq<FoldNodeV>) -> bool {
    exists|i: int|
        #![trigger replaced(w, i)]
        #![trigger foldable(vars_pass(w), i)]
        0 <= i < w.len() && (replaced(w, i) || foldable(vars_pass(w), i))
}

/// Whether a node is a variable or an operator: what a pass can fold away.
pub open spec fn is_active(n: FoldNodeV) -> bool {
    n is Var || n is Bin
}

/// The number of variables and operators in the table.
pub open spec fn active_count(w: Seq<FoldNodeV>) -> nat
    decreases w.len(),
{
    if w.len() == 0 {
        0
    } else {
        active_count(w.drop_last()) + if is_active(w.last()) {
            1nat
        } else {
            0nat
        }
    }
}

/// Where no node of `b` is active that was not active in `a`, `b` has no
/// more active nodes; one fewer at least where some node stopped being
/// active.
proof fn lemma_active_pointwise(a: Seq<FoldNodeV>, b: Seq<FoldNodeV>, k: int)
    requires
        a.len() == b.len(),
        forall|i: int| 0 <= i < a.len() ==> is_active(#[trigger] b[i]) ==> is_active(a[i]),
    ensures
        active_count(b) <= active_count(a),
        0 <= k < a.len() && is_active(a[k]) && !is_active(b[k]) ==> active_count(b) < active_count(a),
    decreases a.len(),
{
    if a.len() > 0 {
        let k2 = if k == a.len() - 1 {
            -1
        } else {
            k
        };
        assert forall|i: int| 0 <= i < a.drop_last().len() implies is_active(
            #[trigger] b.drop_last()[i],
        ) ==> is_active(a.drop_last()[i]) by {
            assert(b.drop_last()[i] == b[i]);
            assert(a.drop_last()[i] == a[i]);
        }
        lemma_active_pointwise(a.drop_last(), b.drop_last(), k2);
        if 0 <= k < a.len() - 1 {
            assert(a.drop_last()[k] == a[k]);
            assert(b.drop_last()[k] == b[k]);
        }
    }
}

/// A pass that changes something leaves fewer variables and operators.
pub proof fn lemma_pass_shrinks(w: Seq<FoldNodeV>)
    requires
        changes(w),
    ensures
        active_count(fold_pass(w)) < active_count(w),
{
    let v = vars_pass(w);
    let p = fold_pass(w);
    let k = choose|i: int| 0 <= i < w.len() && (#[trigger] replaced(w, i) || foldable(v, i));
    assert forall|i: int| 0 <= i < w.len() implies is_active(#[trigger] p[i]) ==> is_active(w[i]) by {
        assert(p[i] == leaf_step(v, i));
        assert(v[i] == var_step(w, i));
    }
    assert(p[k] == leaf_step(v, k));
    assert(v[k] == var_step(w, k));
    lemma_active_pointwise(w, p, k);
}

/// A pass that changes nothing leaves the table as it is.
proof fn lemma_pass_still(w: Seq<FoldNodeV>)
    requires
        !changes(w),
    ensures
        fold_pass(w) == w,
{
    let v = vars_pass(w);
    assert forall|i: int| 0 <= i < w.len() implies v[i] == w[i] by {
        assert(!replaced(w, i));
    }
    assert(v =~= w);
    assert forall|j: int| 0 <= j < w.len() implies !foldable(v, j) by {
        if foldable(v, j) {
            assert(replaced(w, j) || foldable(vars_pass(w), j));
        }
    }
    assert forall|j: int| 0 <= j < w.len() implies !operand_folded(v, j) by {
        if operand_folded(v, j) {
            let i = choose|i: int|
                0 <= i < v.len() && #[trigger] foldable(v, i) && (v[i]->lhs == j || v[i]->rhs == j);
            assert(!foldable(v, i));
        }
    }
    assert(fold_pass(w) =~= w);
}

/// The outcome of folding: passes run until one changes nothing; `None`
/// where a pass meets an operator without a value.
pub open spec fn fold_run(w: Seq<FoldNodeV>) -> Option<Seq<FoldNodeV>>
    decreases active_count(w),
{
    if !pass_ok(w) {
        None
    } else if !changes(w) {
        Some(w)
    } else {
        proof {
            lemma_pass_shrinks(w);
        }
        fold_run(fold_pass(w))
    }
}

/// The literal that the constant declared at `d` folded to, if it did.
fn const_value_at(w: &Vec<FoldNode>, d: usize) -> (r: Option<Literal>)
    ensures
        match const_value(world(w@), d as int) {
            Some(l) => r matches Some(x) && x@ == l,
            None => r is None,
        },
{
    if d < w.len() {
        if let FoldNodeOf::Const { expr } = &w[d] {
            if *expr < w.len() {
                if let FoldNodeOf::Lit(l) = &w[*expr] {
                    return Some(l.copy());
                }
            }
        }
    }
    None
}

/// The table once the variables of folded constants are replaced, and
/// whether any was.
fn fold_variables(w: &Vec<FoldNode>) -> (r: (Vec<FoldNode>, bool))
    ensures
        world(r.0@) == vars_pass(world(w@)),
        r.1 == exists|i: int| 0 <= i < w@.len() && #[trigger] replaced(world(w@), i),
{
    let ghost ww = world(w@);
    let mut out: Vec<FoldNode> = Vec::new();
    let mut any = false;
    let mut i: usize = 0;
    while i < w.len()
        invariant
            0 <= i <= w@.len(),
            ww == world(w@),
            world(out@) == vars_pass(ww).subrange(0, i as int),
            any == exists|j: int| 0 <= j < i && #[trigger] replaced(ww, j),
        decreases w@.len() - i,
    {
        let ghost before = out@;
        let ghost any_before = any;
        let mut next = w[i].copy();
        if let FoldNodeOf::Var { decl } = &w[i] {
            if let Some(l) = const_value_at(w, *decl) {
                next = FoldNodeOf::Lit(l);
                any = true;
            }
        }
        proof {
            assert(ww[i as int] == w@[i as int]@);
            assert(next@ == var_step(ww, i as int));
            assert(any == (any_before || replaced(ww, i as int)));
            if any {
                if replaced(ww, i as int) {
                    assert(0 <= i < i + 1 && replaced(ww, i as int));
                } else {
                    let j = choose|j: int| 0 <= j < i && #[trigger] replaced(ww, j);
                    assert(0 <= j < i + 1 && replaced(ww, j));
                }
            } else {
                assert forall|j: int| 0 <= j < i + 1 implies !#[trigger] replaced(ww, j) by {
                    if j < i {
                    }
                }
            }
        }
        out.push(next);
        proof {
            assert(world(out@) =~= world(before).push(next@));
            assert(vars_pass(ww).subrange(0, i + 1) =~= vars_pass(ww).subrange(0, i as int).push(
                var_step(ww, i as int),
            ));
        }
        i = i + 1;
    }
    proof {
        assert(vars_pass(ww).subrange(0, w@.len() as int) =~= vars_pass(ww));
    }
    (out, any)
}

/// The value of the integer literal at `k`, if that node is one.
fn int_lit(w: &Vec<FoldNode>, k: usize) -> (r: Option<u64>)
    ensures
        r == int_at(world(w@), k),
{
    if k < w.len() {
        if let FoldNodeOf::Lit(LiteralOf::Integer(v)) = &w[k] {
            return Some(*v);
        }
    }
    None
}

/// The parts of the operator at `i` if it folds: its operator, type,
/// operand values and operand positions.
fn fold_operands(w: &Vec<FoldNode>, i: usize) -> (r: Option<(BinOp, Type, u64, u64, usize, usize)>)
    requires
        i < w@.len(),
    ensures
        r is Some <==> foldable(world(w@), i as int),
        r matches Some((op, ty, a, b, lhs, rhs)) ==> world(w@)[i as int] == (FoldNodeOf::<LiteralV>::Bin {
            op,
            ty,
            lhs,
            rhs,
        }) && int_at(world(w@), lhs) == Some(a) && int_at(world(w@), rhs) == Some(b),
{
    if let FoldNodeOf::Bin { op, ty, lhs, rhs } = &w[i] {
        if op.classify().is_none() {
            if let Some(a) = int_lit(w, *lhs) {
                if let Some(b) = int_lit(w, *rhs) {
                    return Some((*op, *ty, a, b, *lhs, *rhs));
                }
            }
        }
    }
    None
}

/// Whether `op` has a value on a right operand `b` of type `ty`: a division
/// or remainder needs a divisor other than zero.
fn divisor_ok(ty: Type, b: u64, op: BinOp) -> (r: bool)
    requires
        ty.spec_is_integer(),
        evaluates(op),
    ensures
        r == defined(ty, b, op),
{
    if op == BinOp::Div || op == BinOp::Mod {
        let r = match ty {
            Type::U8 | Type::I8 => b % 0x100 != 0,
            Type::U16 | Type::I16 => b % 0x1_0000 != 0,
            Type::U32 | Type::I32 => b % 0x1_0000_0000 != 0,
            _ => b != 0,
        };
        proof {
            assert(r == (value_of(ty, b) != 0));
        }
        r
    } else {
        true
    }
}

/// Whether `j` is an operand of an operator before `k` that folds.
pub open spec fn operand_folded_before(w: Seq<FoldNodeV>, j: int, k: int) -> bool {
    exists|i: int| 0 <= i < k && #[trigger] foldable(w, i) && (w[i]->lhs == j || w[i]->rhs == j)
}

/// The table once the operators over integer literals are folded, and
/// whether any was; `None` where one of them has no value.
fn fold_literal_leaves(v: &Vec<FoldNode>) -> (r: Option<(Vec<FoldNode>, bool)>)
    ensures
        r is None <==> exists|i: int| 0 <= i < v@.len() && !#[trigger] folds_cleanly(world(v@), i),
        r matches Some((out, any)) ==> world(out@) == leaves_pass(world(v@)) && any == exists|i: int|
            0 <= i < v@.len() && #[trigger] foldable(world(v@), i),
{
    let ghost ww = world(v@);
    let n = v.len();
    let mut gone: Vec<bool> = Vec::new();
    let mut k: usize = 0;
    while k < n
        invariant
            n == v@.len(),
            0 <= k <= n,
            gone@.len() == k,
            forall|j: int| 0 <= j < k ==> !gone@[j],
        decreases n - k,
    {
        gone.push(false);
        k = k + 1;
    }
    let mut any = false;
    let mut i: usize = 0;
    while i < n
        invariant
            n == v@.len(),
            ww == world(v@),
            0 <= i <= n,
            gone@.len() == n,
            forall|j: int| 0 <= j < n ==> gone@[j] == operand_folded_before(ww, j, i as int),
            forall|j: int| 0 <= j < i ==> #[trigger] folds_cleanly(ww, j),
            any == exists|j: int| 0 <= j < i && #[trigger] foldable(ww, j),
        decreases n - i,
    {
        match fold_operands(v, i) {
            None => {
                proof {
                    assert(!foldable(ww, i as int));
                    assert forall|j: int| 0 <= j < n implies gone@[j] == operand_folded_before(
                        ww,
                        j,
                        i + 1,
                    ) by {
                        if operand_folded_before(ww, j, i + 1) {
                            let x = choose|x: int|
                                0 <= x < i + 1 && #[trigger] foldable(ww, x) && (ww[x]->lhs == j
                                    || ww[x]->rhs == j);
                            assert(x != i);
                        }
                    }
                }
            },
            Some((op, ty, a, b, lhs, rhs)) => {
                if !ty.is_integer() || !divisor_ok(ty, b, op) {
                    proof {
                        assert(!folds_cleanly(ww, i as int));
                    }
                    return None;
                }
                let ghost before = gone@;
                gone.set(lhs, true);
                gone.set(rhs, true);
                any = true;
                proof {
                    assert forall|j: int| 0 <= j < n implies gone@[j] == operand_folded_before(
                        ww,
                        j,
                        i + 1,
                    ) by {
                        if j == lhs || j == rhs {
                            assert(foldable(ww, i as int) && (ww[i as int]->lhs == j
                                || ww[i as int]->rhs == j));
                        } else {
                            assert(gone@[j] == before[j]);
                            if operand_folded_before(ww, j, i + 1) {
                                let x = choose|x: int|
                                    0 <= x < i + 1 && #[trigger] foldable(ww, x) && (ww[x]->lhs == j
                                        || ww[x]->rhs == j);
                                assert(x != i);
                            }
                        }
                    }
                }
            },
        }
        i = i + 1;
    }
    let mut out: Vec<FoldNode> = Vec::new();
    let mut j: usize = 0;
    while j < n
        invariant
            n == v@.len(),
            ww == world(v@),
            0 <= j <= n,
            gone@.len() == n,
            forall|x: int| 0 <= x < n ==> gone@[x] == operand_folded_before(ww, x, n as int),
            forall|x: int| 0 <= x < n ==> #[trigger] folds_cleanly(ww, x),
            world(out@) == leaves_pass(ww).subrange(0, j as int),
        decreases n - j,
    {
        let ghost before = out@;
        assert(operand_folded_before(ww, j as int, n as int) == operand_folded(ww, j as int));
        let next = match fold_operands(v, j) {
            Some((op, ty, a, b, lhs, rhs)) => {
                proof {
                    assert(folds_cleanly(ww, j as int));
                }
                FoldNodeOf::Lit(LiteralOf::Integer(fold_literal_leaf(ty, a, b, op)))
            },
            None => if gone[j] {
                FoldNodeOf::Gone
            } else {
                v[j].copy()
            },
        };
        proof {
            assert(next@ == leaf_step(ww, j as int));
        }
        out.push(next);
        proof {
            assert(world(out@) =~= world(before).push(next@));
            assert(leaves_pass(ww).subrange(0, j + 1) =~= leaves_pass(ww).subrange(
                0,
                j as int,
            ).push(leaf_step(ww, j as int)));
        }
        j = j + 1;
    }
    proof {
        assert(leaves_pass(ww).subrange(0, n as int) =~= leaves_pass(ww));
    }
    Some((out, any))
}

/// Folds the constants of a program: runs passes until one changes
/// nothing. `None` where a pass meets an operator over literals without a
/// value, a division by zero or an operator whose type is not an integer
/// type.
pub fn fold_fixpoint(nodes: Vec<FoldNode>) -> (r: Option<Vec<FoldNode>>)
    ensures
        match fold_run(world(nodes@)) {
            None => r is None,
            Some(w) => r matches Some(v) && world(v@) == w,
        },
{
    let ghost start = world(nodes@);
    let mut w = nodes;
    loop
        invariant
            start == world(nodes@),
            fold_run(start) == fold_run(world(w@)),
        decreases active_count(world(w@)),
    {
        let ghost ww = world(w@);
        let (v, replaced_any) = fold_variables(&w);
        match fold_literal_leaves(&v) {
            None => {
                proof {
                    let i = choose|i: int| 0 <= i < v@.len() && !#[trigger] folds_cleanly(world(v@), i);
                    assert(!pass_ok(ww));
                }
                return None;
            },
            Some((next, folded_any)) => {
                proof {
                    assert(pass_ok(ww));
                    assert(changes(ww) == (replaced_any || folded_any));
                }
                if !replaced_any && !folded_any {
                    return Some(w);
                }
                proof {
                    lemma_pass_shrinks(ww);
                }
                w = next;
            },
        }
    }
}

/// Folding ends at a fixpoint: in what it gives, no variable of a constant
/// that folded is left and no operator over two integer literals, so one
/// more pass changes nothing.
pub proof fn law_fold_reaches_fixpoint(w: Seq<FoldNodeV>)
    ensures
        fold_run(w) matches Some(r) ==> {
            &&& fold_pass(r) == r
            &&& forall|i: int| 0 <= i < r.len() ==> !#[trigger] replaced(r, i) && !foldable(r, i)
        },
    decreases active_count(w),
{
    if pass_ok(w) {
        if !changes(w) {
            lemma_pass_still(w);
            assert forall|i: int| 0 <= i < w.len() implies !#[trigger] replaced(w, i) && !foldable(w, i) by {
                assert(!(replaced(w, i) || foldable(vars_pass(w), i)));
                assert(vars_pass(w) == w);
            }
        } else {
            lemma_pass_shrinks(w);
            law_fold_reaches_fixpoint(fold_pass(w));
        }
    }
}

/// Whether `b` is `a` with some nodes turned into literals or removed.
pub open spec fn simplifies(a: Seq<FoldNodeV>, b: Seq<FoldNodeV>) -> bool {
    &&& b.len() == a.len()
    &&& forall|i: int| 0 <= i < a.len() ==> #[trigger] b[i] == a[i] || b[i] is Lit || b[i] is Gone
}

/// Folding only simplifies: every node it gives is the node it was given,
/// a literal, or removed.
pub proof fn law_fold_only_simplifies(w: Seq<FoldNodeV>)
    ensures
        fold_run(w) matches Some(r) ==> simplifies(w, r),
    decreases active_count(w),
{
    if pass_ok(w) && changes(w) {
        let p = fold_pass(w);
        let v = vars_pass(w);
        lemma_pass_shrinks(w);
        law_fold_only_simplifies(p);
        assert forall|i: int| 0 <= i < w.len() implies #[trigger] p[i] == w[i] || p[i] is Lit
            || p[i] is Gone by {
            assert(p[i] == leaf_step(v, i));
            assert(v[i] == var_step(w, i));
        }
        if fold_run(w) is Some {
            let r = fold_run(w).unwrap();
            assert forall|i: int| 0 <= i < w.len() implies #[trigger] r[i] == w[i] || r[i] is Lit
                || r[i] is Gone by {
                assert(r[i] == p[i] || r[i] is Lit || r[i] is Gone);
            }
        }
    }
}

/// Whether the node at `i` is an assignment to a variable of a constant.
pub open spec fn assigns_const(w: Seq<FoldNodeV>, i: int) -> bool {
    &&& w[i] matches FoldNodeOf::Bin { op, ty, lhs, rhs }
    &&& op.is_assignment()
    &&& lhs < w.len()
    &&& w[lhs as int] matches FoldNodeOf::Var { decl }
    &&& decl < w.len()
    &&& w[decl as int] is Const
}

/// Whether the node `i` is the expression of a constant declaration.
pub open spec fn must_fold(w: Seq<FoldNodeV>, i: int) -> bool {
    exists|d: int| 0 <= d < w.len() && #[trigger] w[d] == (FoldNodeOf::<LiteralV>::Const { expr: i as usize })
}

/// Whether the expression of a constant at `i` in the table `w` is still
/// there in the folded table `r` without being a literal.
pub open spec fn not_folded(w: Seq<FoldNodeV>, r: Seq<FoldNodeV>, i: int) -> bool {
    must_fold(w, i) && !(r[i] is Lit) && !(r[i] is Gone)
}

/// Whether the expression of a constant before `k` is the node `i`.
pub open spec fn must_fold_before(w: Seq<FoldNodeV>, i: int, k: int) -> bool {
    exists|d: int| 0 <= d < k && #[trigger] w[d] == (FoldNodeOf::<LiteralV>::Const { expr: i as usize })
}

/// The first assignment to a variable of a constant, as an error at that
/// variable.
fn verify_variable_const_assign(w: &Vec<FoldNode>, spans: &Vec<Span>) -> (r: Option<Error>)
    requires
        spans@.len() == w@.len(),
    ensures
        r is None <==> forall|i: int| 0 <= i < w@.len() ==> !#[trigger] assigns_const(world(w@), i),
        r matches Some(e) ==> exists|i: int|
            0 <= i < w@.len() && #[trigger] assigns_const(world(w@), i) && (forall|j: int|
                0 <= j < i ==> !#[trigger] assigns_const(world(w@), j)) && e == (Error {
                span: spans@[world(w@)[i]->lhs as int],
                kind: ErrorKind::Custom("Can not assign to a constant"),
            }),
{
    let ghost ww = world(w@);
    let mut i: usize = 0;
    while i < w.len()
        invariant
            ww == world(w@),
            spans@.len() == w@.len(),
            0 <= i <= w@.len(),
            forall|j: int| 0 <= j < i ==> !#[trigger] assigns_const(ww, j),
        decreases w@.len() - i,
    {
        if let FoldNodeOf::Bin { op, ty, lhs, rhs } = &w[i] {
            if let Some(Marker::Assignment) = op.classify() {
                if *lhs < w.len() {
                    if let FoldNodeOf::Var { decl } = &w[*lhs] {
                        if *decl < w.len() {
                            if let FoldNodeOf::Const { expr } = &w[*decl] {
                                proof {
                                    assert(assigns_const(ww, i as int));
                                }
                                return Some(spans[*lhs].custom("Can not assign to a constant"));
                            }
                        }
                    }
                }
            }
        }
        proof {
            assert(!assigns_const(ww, i as int));
        }
        i = i + 1;
    }
    None
}

/// Marks the expressions of the constant declarations.
fn mark_const_expr(w: &Vec<FoldNode>) -> (r: Vec<bool>)
    ensures
        r@.len() == w@.len(),
        forall|i: int| 0 <= i < w@.len() ==> r@[i] == must_fold(world(w@), i),
{
    let ghost ww = world(w@);
    let n = w.len();
    let mut marks: Vec<bool> = Vec::new();
    let mut k: usize = 0;
    while k < n
        invariant
            n == w@.len(),
            0 <= k <= n,
            marks@.len() == k,
            forall|j: int| 0 <= j < k ==> !marks@[j],
        decreases n - k,
    {
        marks.push(false);
        k = k + 1;
    }
    let mut d: usize = 0;
    while d < n
        invariant
            n == w@.len(),
            ww == world(w@),
            0 <= d <= n,
            marks@.len() == n,
            forall|i: int| 0 <= i < n ==> marks@[i] == must_fold_before(ww, i, d as int),
        decreases n - d,
    {
        let ghost before = marks@;
        if let FoldNodeOf::Const { expr } = &w[d] {
            if *expr < n {
                marks.set(*expr, true);
            }
        }
        proof {
            assert forall|i: int| 0 <= i < n implies marks@[i] == must_fold_before(ww, i, d + 1) by {
                if ww[d as int] == (FoldNodeOf::<LiteralV>::Const { expr: i as usize }) {
                    assert(marks@[i]);
                } else {
                    assert(marks@[i] == before[i]);
                    if must_fold_before(ww, i, d + 1) {
                        let x = choose|x: int|
                            0 <= x < d + 1 && #[trigger] ww[x] == (FoldNodeOf::<LiteralV>::Const {
                                expr: i as usize,
                            });
                        assert(x != d);
                    }
                }
            }
        }
        d = d + 1;
    }
    proof {
        assert forall|i: int| 0 <= i < n implies marks@[i] == must_fold(ww, i) by {
            assert(must_fold_before(ww, i, n as int) == must_fold(ww, i));
        }
    }
    marks
}

/// Whether the node at `i`, marked to fold, is still there without being a
/// literal.
pub open spec fn unfolded(must: Seq<bool>, f: Seq<FoldNodeV>, i: int) -> bool {
    must[i] && !(f[i] is Lit) && !(f[i] is Gone)
}

/// Checks that every node marked to fold, in the folded table, is a
/// literal or removed: the first one that is not is an error at its span.
pub fn verify_folded(must: &Vec<bool>, folded: &Vec<FoldNode>, spans: &Vec<Span>) -> (r: Result<(), Error>)
    requires
        must@.len() == folded@.len(),
        spans@.len() == folded@.len(),
    ensures
        r is Ok <==> forall|i: int| 0 <= i < must@.len() ==> !#[trigger] unfolded(must@, world(folded@), i),
        r matches Err(e) ==> exists|i: int|
            0 <= i < must@.len() && #[trigger] unfolded(must@, world(folded@), i) && (forall|j: int|
                0 <= j < i ==> !#[trigger] unfolded(must@, world(folded@), j)) && e == (Error {
                span: spans@[i],
                kind: ErrorKind::Custom("Expression is not const"),
            }),
{
    let ghost wf = world(folded@);
    let mut i: usize = 0;
    while i < folded.len()
        invariant
            wf == world(folded@),
            must@.len() == folded@.len(),
            spans@.len() == folded@.len(),
            0 <= i <= folded@.len(),
            forall|j: int| 0 <= j < i ==> !#[trigger] unfolded(must@, wf, j),
        decreases folded@.len() - i,
    {
        if must[i] {
            match &folded[i] {
                FoldNodeOf::Lit(_) | FoldNodeOf::Gone => {},
                _ => {
                    proof {
                        assert(unfolded(must@, wf, i as int));
                    }
                    return Err(spans[i].custom("Expression is not const"));
                },
            }
        }
        proof {
            assert(!unfolded(must@, wf, i as int));
        }
        i = i + 1;
    }
    Ok(())
}

/// Whether `e` is the error for the first assignment to a variable of a
/// constant in `w`: at that variable.
pub open spec fn first_assign_error(w: Seq<FoldNodeV>, spans: Seq<Span>, e: Error) -> bool {
    exists|i: int|
        0 <= i < w.len() && #[trigger] assigns_const(w, i) && (forall|j: int|
            0 <= j < i ==> !#[trigger] assigns_const(w, j)) && e == (Error {
            span: spans[w[i]->lhs as int],
            kind: ErrorKind::Custom("Can not assign to a constant"),
        })
}

/// What the stage gives once `w` folded to `f`: the error at the first
/// expression of a constant that is not a literal, if there is one, else
/// the folded table.
pub open spec fn folded_outcome(
    w: Seq<FoldNodeV>,
    f: Seq<FoldNodeV>,
    spans: Seq<Span>,
    res: Result<Vec<FoldNode>, Error>,
) -> bool {
    if exists|i: int| 0 <= i < w.len() && #[trigger] not_folded(w, f, i) {
        res matches Err(e) && exists|i: int|
            0 <= i < w.len() && #[trigger] not_folded(w, f, i) && (forall|j: int|
                0 <= j < i ==> !#[trigger] not_folded(w, f, j)) && e == (Error {
                span: spans[i],
                kind: ErrorKind::Custom("Expression is not const"),
            })
    } else {
        res matches Ok(v) && world(v@) == f
    }
}

/// The constant folding stage: refuses an assignment to a variable of a
/// constant, folds, then refuses a constant whose expression did not fold
/// to a literal. Errors come from the first such node in the table; spans
/// are given by node. `None` where folding meets an operator over literals
/// without a value.
pub fn fold_constants(nodes: Vec<FoldNode>, spans: &Vec<Span>) -> (r: Option<Result<Vec<FoldNode>, Error>>)
    requires
        spans@.len() == nodes@.len(),
    ensures
        if exists|i: int| 0 <= i < nodes@.len() && #[trigger] assigns_const(world(nodes@), i) {
            r matches Some(Err(e)) && first_assign_error(world(nodes@), spans@, e)
        } else {
            match fold_run(world(nodes@)) {
                None => r is None,
                Some(f) => r matches Some(res) && folded_outcome(world(nodes@), f, spans@, res),
            }
        },
{
    let ghost w0 = world(nodes@);
    if let Some(e) = verify_variable_const_assign(&nodes, spans) {
        return Some(Err(e));
    }
    let marks = mark_const_expr(&nodes);
    let folded = match fold_fixpoint(nodes) {
        None => {
            return None;
        },
        Some(v) => v,
    };
    let ghost wf = world(folded@);
    proof {
        law_fold_only_simplifies(w0);
    }
    match verify_folded(&marks, &folded, spans) {
        Ok(()) => {
            proof {
                assert forall|x: int| 0 <= x < w0.len() implies !#[trigger] not_folded(w0, wf, x) by {
                    assert(!unfolded(marks@, wf, x));
                }
            }
            Some(Ok(folded))
        },
        Err(e) => {
            proof {
                let i = choose|i: int|
                    0 <= i < marks@.len() && #[trigger] unfolded(marks@, wf, i) && (forall|j: int|
                        0 <= j < i ==> !#[trigger] unfolded(marks@, wf, j)) && e == (Error {
                        span: spans@[i],
                        kind: ErrorKind::Custom("Expression is not const"),
                    });
                assert(not_folded(w0, wf, i));
                assert forall|j: int| 0 <= j < i implies !#[trigger] not_folded(w0, wf, j) by {
                    assert(!unfolded(marks@, wf, j));
                }
            }
            Some(Err(e))
        },
    }
}

} // verus!
