//! The lowering of the current front end: for each kind of tree node, the
//! list of instructions and sub-node code that it stands for. Nodes are
//! named by their handle in the tree.
use crate::ast::Layout;
use crate::error::{Error, ErrorKind};
use crate::stage::tokenize::Span;
use crate::text::bytes_eq;
use crate::tree::{BinOp, Literal, LiteralV, Type, UnaryOp};
use vstd::prelude::*;

verus! {

/// A node of the syntax tree, by its handle.
pub type Node = u64;

/// One instruction; operands, labels and procedures are nodes.
#[derive(Debug, Clone, PartialEq, Eq)]
pub enum IrOf<L> {
    Store { dst: Node, src: Node },
    Unary { dst: Node, src: Node, una: UnaryOp },
    Bin { dst: Node, lhs: Node, rhs: Node, bin: IrBinOp },
    Label { label: Node },
    Jump { label: Node },
    JumpZero { label: Node, arg: Node },
    JumpNotZero { label: Node, arg: Node },
    Allocate { args: L },
    LoadArguments { arguments: L },
    Call { proc: Node, arguments: L, result: Option<Node> },
    ReturnAndDeallocate { result: Option<Node> },
}

pub type Ir = IrOf<Vec<Node>>;

pub type IrV = IrOf<Seq<Node>>;

impl View for IrOf<Vec<Node>> {
    type V = IrOf<Seq<Node>>;

    open spec fn view(&self) -> IrOf<Seq<Node>> {
        match self {
            IrOf::Store { dst, src } => IrOf::Store { dst: *dst, src: *src },
            IrOf::Unary { dst, src, una } => IrOf::Unary { dst: *dst, src: *src, una: *una },
            IrOf::Bin { dst, lhs, rhs, bin } => IrOf::Bin { dst: *dst, lhs: *lhs, rhs: *rhs, bin: *bin },
            IrOf::Label { label } => IrOf::Label { label: *label },
            IrOf::Jump { label } => IrOf::Jump { label: *label },
            IrOf::JumpZero { label, arg } => IrOf::JumpZero { label: *label, arg: *arg },
            IrOf::JumpNotZero { label, arg } => IrOf::JumpNotZero { label: *label, arg: *arg },
            IrOf::Allocate { args } => IrOf::Allocate { args: args@ },
            IrOf::LoadArguments { arguments } => IrOf::LoadArguments { arguments: arguments@ },
            IrOf::Call { proc, arguments, result } => IrOf::Call {
                proc: *proc,
                arguments: arguments@,
                result: *result,
            },
            IrOf::ReturnAndDeallocate { result } => IrOf::ReturnAndDeallocate { result: *result },
        }
    }
}

/// An entry of a node's code: an instruction, or the code of a sub-node.
#[derive(Debug, Clone, PartialEq, Eq)]
pub enum ItemOf<L> {
    Op(IrOf<L>),
    Sub(Node),
}

pub type Item = ItemOf<Vec<Node>>;

pub type ItemV = ItemOf<Seq<Node>>;

impl View for ItemOf<Vec<Node>> {
    type V = ItemOf<Seq<Node>>;

    open spec fn view(&self) -> ItemOf<Seq<Node>> {
        match self {
            ItemOf::Op(op) => ItemOf::Op(op@),
            ItemOf::Sub(n) => ItemOf::Sub(*n),
        }
    }
}

/// The values of a list of entries.
pub open spec fn items_v(s: Seq<Item>) -> Seq<ItemV> {
    s.map_values(|i: Item| i@)
}

/// The binary operators of the instructions.
#[derive(Debug, Clone, Copy, PartialEq, Eq, Structural)]
pub enum IrBinOp {
    Add,
    Sub,
    Mul,
    Div,
    Mod,
    Eq,
    Ne,
    Gt,
    Ge,
    Lt,
    Le,
    BitAnd,
    BitOr,
    Xor,
    Shr,
    Shl,
}

impl IrBinOp {
    /// The instruction operator of a plain binary operator of the tree.
    pub open spec fn spec_from(kind: BinOp) -> IrBinOp {
        match kind {
            BinOp::Add => IrBinOp::Add,
            BinOp::Sub => IrBinOp::Sub,
            BinOp::Mul => IrBinOp::Mul,
            BinOp::Div => IrBinOp::Div,
            BinOp::Mod => IrBinOp::Mod,
            BinOp::Eq => IrBinOp::Eq,
            BinOp::Ne => IrBinOp::Ne,
            BinOp::Gt => IrBinOp::Gt,
            BinOp::Ge => IrBinOp::Ge,
            BinOp::Lt => IrBinOp::Lt,
            BinOp::Le => IrBinOp::Le,
            BinOp::BitAnd => IrBinOp::BitAnd,
            BinOp::BitOr => IrBinOp::BitOr,
            BinOp::Xor => IrBinOp::Xor,
            BinOp::Shr => IrBinOp::Shr,
            _ => IrBinOp::Shl,
        }
    }

    /// Whether an operator of the tree is one the instructions have: not a
    /// logical operator and not an assignment.
    pub open spec fn is_plain(kind: BinOp) -> bool {
        !(kind.is_logical() || kind.is_assignment())
    }

    /// The instruction operator of a plain binary operator; other
    /// operators panic.
    pub fn expect_from_ast_bin_op_kind(kind: BinOp) -> (r: IrBinOp)
        requires
            Self::is_plain(kind),
        ensures
            r == Self::spec_from(kind),
    {
        match kind {
            BinOp::Add => IrBinOp::Add,
            BinOp::Sub => IrBinOp::Sub,
            BinOp::Mul => IrBinOp::Mul,
            BinOp::Div => IrBinOp::Div,
            BinOp::Mod => IrBinOp::Mod,
            BinOp::Eq => IrBinOp::Eq,
            BinOp::Ne => IrBinOp::Ne,
            BinOp::Gt => IrBinOp::Gt,
            BinOp::Ge => IrBinOp::Ge,
            BinOp::Lt => IrBinOp::Lt,
            BinOp::Le => IrBinOp::Le,
            BinOp::BitAnd => IrBinOp::BitAnd,
            BinOp::BitOr => IrBinOp::BitOr,
            BinOp::Xor => IrBinOp::Xor,
            BinOp::Shr => IrBinOp::Shr,
            _ => IrBinOp::Shl,
        }
    }

    /// The operator an operator-assignment applies.
    pub open spec fn spec_from_assign(kind: BinOp) -> IrBinOp {
        match kind {
            BinOp::AddAssign => IrBinOp::Add,
            BinOp::SubAssign => IrBinOp::Sub,
            BinOp::MulAssign => IrBinOp::Mul,
            BinOp::DivAssign => IrBinOp::Div,
            BinOp::ModAssign => IrBinOp::Mod,
            BinOp::BitAndAssign => IrBinOp::BitAnd,
            BinOp::BitOrAssign => IrBinOp::BitOr,
            BinOp::XorAssign => IrBinOp::Xor,
            BinOp::ShlAssign => IrBinOp::Shl,
            _ => IrBinOp::Shr,
        }
    }
}

/// The layout of a value of a type; `()` has none.
pub open spec fn spec_layout(ty: Type) -> Option<Layout> {
    match ty {
        Type::U8 | Type::I8 => Some(Layout { size: 1, align: 1, composite: false }),
        Type::U16 | Type::I16 => Some(Layout { size: 2, align: 2, composite: false }),
        Type::U32 | Type::I32 => Some(Layout { size: 4, align: 4, composite: false }),
        Type::U64 | Type::I64 | Type::Str => Some(Layout { size: 8, align: 8, composite: false }),
        Type::Not => None,
    }
}

/// The layout of a value of a type; `()` has none.
pub fn layout_of(ty: Type) -> (r: Option<Layout>)
    ensures
        r == spec_layout(ty),
{
    match ty {
        Type::U8 | Type::I8 => Some(Layout { size: 1, align: 1, composite: false }),
        Type::U16 | Type::I16 => Some(Layout { size: 2, align: 2, composite: false }),
        Type::U32 | Type::I32 => Some(Layout { size: 4, align: 4, composite: false }),
        Type::U64 | Type::I64 | Type::Str => Some(Layout { size: 8, align: 8, composite: false }),
        Type::Not => None,
    }
}

/// The names of the labels of an `if`: before its condition, before its
/// body and after it.
pub fn if_labels() -> (r: [&'static str; 3])
    ensures
        r@ == seq!["if_condition", "if_body", "if_skip"],
{
    let r = ["if_condition", "if_body", "if_skip"];
    assert(r@ =~= seq!["if_condition", "if_body", "if_skip"]);
    r
}

/// The code of an `if`: evaluate the condition, skip the body where it is
/// zero.
pub open spec fn spec_if_ir(condition: Node, body: Node, labels: Seq<Node>) -> Seq<ItemV> {
    seq![
        ItemOf::Op(IrOf::Label { label: labels[0] }),
        ItemOf::Sub(condition),
        ItemOf::Op(IrOf::JumpZero { label: labels[2], arg: condition }),
        ItemOf::Op(IrOf::Label { label: labels[1] }),
        ItemOf::Sub(body),
        ItemOf::Op(IrOf::Label { label: labels[2] }),
    ]
}

/// The code of an `if`, given the nodes of its labels in the order of
/// `if_labels`.
pub fn if_ir(condition: Node, body: Node, labels: [Node; 3]) -> (r: Vec<Item>)
    ensures
        items_v(r@) == spec_if_ir(condition, body, labels@),
{
    let r = vec![
        ItemOf::Op(IrOf::Label { label: labels[0] }),
        ItemOf::Sub(condition),
        ItemOf::Op(IrOf::JumpZero { label: labels[2], arg: condition }),
        ItemOf::Op(IrOf::Label { label: labels[1] }),
        ItemOf::Sub(body),
        ItemOf::Op(IrOf::Label { label: labels[2] }),
    ];
    assert(items_v(r@) =~= spec_if_ir(condition, body, labels@));
    r
}

/// The names of the labels of a `while`: before its condition, before its
/// body and after it.
pub fn while_labels() -> (r: [&'static str; 3])
    ensures
        r@ == seq!["while_condition", "while_body", "while_exit"],
{
    let r = ["while_condition", "while_body", "while_exit"];
    assert(r@ =~= seq!["while_condition", "while_body", "while_exit"]);
    r
}

/// The code of a `while`: evaluate the condition, leave where it is zero,
/// else run the body and go back.
pub open spec fn spec_while_ir(condition: Node, body: Node, labels: Seq<Node>) -> Seq<ItemV> {
    seq![
        ItemOf::Op(IrOf::Label { label: labels[0] }),
        ItemOf::Sub(condition),
        ItemOf::Op(IrOf::JumpZero { label: labels[2], arg: condition }),
        ItemOf::Op(IrOf::Label { label: labels[1] }),
        ItemOf::Sub(body),
        ItemOf::Op(IrOf::Jump { label: labels[0] }),
        ItemOf::Op(IrOf::Label { label: labels[2] }),
    ]
}

/// The code of a `while`, given the nodes of its labels in the order of
/// `while_labels`.
pub fn while_ir(condition: Node, body: Node, labels: [Node; 3]) -> (r: Vec<Item>)
    ensures
        items_v(r@) == spec_while_ir(condition, body, labels@),
{
    let r = vec![
        ItemOf::Op(IrOf::Label { label: labels[0] }),
        ItemOf::Sub(condition),
        ItemOf::Op(IrOf::JumpZero { label: labels[2], arg: condition }),
        ItemOf::Op(IrOf::Label { label: labels[1] }),
        ItemOf::Sub(body),
        ItemOf::Op(IrOf::Jump { label: labels[0] }),
        ItemOf::Op(IrOf::Label { label: labels[2] }),
    ];
    assert(items_v(r@) =~= spec_while_ir(condition, body, labels@));
    r
}

/// The code of a `return`: store the returned expression, if any, into the
/// procedure's result and jump to its epilogue.
pub open spec fn spec_return_ir(result: Option<Node>, expr: Option<Node>, epilogue: Node) -> Seq<ItemV> {
    match expr {
        Some(e) => seq![
            ItemOf::Sub(e),
            ItemOf::Op(IrOf::Store { dst: result.unwrap(), src: e }),
            ItemOf::Op(IrOf::Jump { label: epilogue }),
        ],
        None => seq![ItemOf::Op(IrOf::Jump { label: epilogue })],
    }
}

/// The code of a `return` in a procedure with the result declaration
/// `result`; a returned expression in a procedure without result panics.
pub fn return_ir(result: Option<Node>, expr: Option<Node>, epilogue: Node) -> (r: Vec<Item>)
    requires
        expr is Some ==> result is Some,
    ensures
        items_v(r@) == spec_return_ir(result, expr, epilogue),
{
    let r = match expr {
        Some(e) => {
            let dst = match result {
                Some(d) => d,
                None => 0,
            };
            vec![
                ItemOf::Sub(e),
                ItemOf::Op(IrOf::Store { dst, src: e }),
                ItemOf::Op(IrOf::Jump { label: epilogue }),
            ]
        },
        None => vec![ItemOf::Op(IrOf::Jump { label: epilogue })],
    };
    assert(items_v(r@) =~= spec_return_ir(result, expr, epilogue));
    r
}

/// The code of a block: the code of each statement in turn.
pub fn block_ir(children: &Vec<Node>) -> (r: Vec<Item>)
    ensures
        r@.len() == children@.len(),
        forall|j: int| 0 <= j < children@.len() ==> r@[j] == ItemOf::<Vec<Node>>::Sub(children@[j]),
{
    let mut r: Vec<Item> = Vec::new();
    let mut i: usize = 0;
    while i < children.len()
        invariant
            0 <= i <= children@.len(),
            r@.len() == i,
            forall|j: int| 0 <= j < i ==> r@[j] == ItemOf::<Vec<Node>>::Sub(children@[j]),
        decreases children@.len() - i,
    {
        r.push(ItemOf::Sub(children[i]));
        i += 1;
    }
    r
}

/// The code of a declaration: evaluate its expression and store it.
pub fn declaration_ir(decl: Node, expr: Node) -> (r: Vec<Item>)
    ensures
        items_v(r@) == seq![
            ItemOf::<Seq<Node>>::Sub(expr),
            ItemOf::Op(IrOf::Store { dst: decl, src: expr }),
        ],
{
    let r = vec![ItemOf::Sub(expr), ItemOf::Op(IrOf::Store { dst: decl, src: expr })];
    assert(items_v(r@) =~= seq![
        ItemOf::<Seq<Node>>::Sub(expr),
        ItemOf::Op(IrOf::Store { dst: decl, src: expr }),
    ]);
    r
}

/// The code of a unary operation, and the new stack slot that the node
/// gets, numbered by `counter`, which moves on.
pub fn unary_op_ir(op: Node, expr: Node, una: UnaryOp, counter: &mut usize) -> (r: (Vec<Item>, Arg))
    requires
        *old(counter) < usize::MAX,
    ensures
        items_v(r.0@) == seq![
            ItemOf::<Seq<Node>>::Sub(expr),
            ItemOf::Op(IrOf::Unary { dst: op, src: expr, una }),
        ],
        r.1 == Arg::Var(*old(counter)),
        *final(counter) == *old(counter) + 1,
{
    let slot = Arg::allocate(counter);
    let r = vec![ItemOf::Sub(expr), ItemOf::Op(IrOf::Unary { dst: op, src: expr, una })];
    assert(items_v(r@) =~= seq![
        ItemOf::<Seq<Node>>::Sub(expr),
        ItemOf::Op(IrOf::Unary { dst: op, src: expr, una }),
    ]);
    (r, slot)
}

/// The name of the label a binary operator needs: the place after a
/// short-circuited operand.
pub fn bin_op_label(bin: BinOp) -> (r: Option<&'static str>)
    ensures
        r == match bin {
            BinOp::And => Some("and_skip"),
            BinOp::Or => Some("or_skip"),
            _ => None::<&'static str>,
        },
{
    match bin {
        BinOp::And => Some("and_skip"),
        BinOp::Or => Some("or_skip"),
        _ => None,
    }
}

/// The code of a binary operation at node `op` with operands `lhs` and
/// `rhs`: a logical operator stores its left operand and skips the right
/// one where that decides, an assignment stores into its left operand, and
/// another operator computes into `op`.
pub open spec fn spec_bin_op_ir(op: Node, lhs: Node, rhs: Node, bin: BinOp, skip: Node) -> Seq<ItemV> {
    if bin.is_logical() {
        seq![
            ItemOf::Sub(lhs),
            ItemOf::Op(IrOf::Store { dst: op, src: lhs }),
            ItemOf::Op(
                if bin is And {
                    IrOf::JumpZero { label: skip, arg: lhs }
                } else {
                    IrOf::JumpNotZero { label: skip, arg: lhs }
                },
            ),
            ItemOf::Sub(rhs),
            ItemOf::Op(IrOf::Store { dst: op, src: rhs }),
            ItemOf::Op(IrOf::Label { label: skip }),
        ]
    } else if bin is Assign {
        seq![ItemOf::Sub(lhs), ItemOf::Sub(rhs), ItemOf::Op(IrOf::Store { dst: lhs, src: rhs })]
    } else if bin.is_assignment() {
        seq![
            ItemOf::Sub(lhs),
            ItemOf::Sub(rhs),
            ItemOf::Op(IrOf::Bin { dst: lhs, lhs, rhs, bin: IrBinOp::spec_from_assign(bin) }),
        ]
    } else {
        seq![
            ItemOf::Sub(lhs),
            ItemOf::Sub(rhs),
            ItemOf::Op(IrOf::Bin { dst: op, lhs, rhs, bin: IrBinOp::spec_from(bin) }),
        ]
    }
}

/// Plain operators lower to different instruction operators; `x op y`
/// runs `x`, then `y`, and applies the operator to them in that order into
/// its own node; `x = y` runs both and stores `y` into `x`; and a
/// compound assignment `x op= y` lowers to the code of `x op y` with the
/// result stored into `x` in place of the operator's own node: the same
/// operands, evaluated in the same order, and the same instruction
/// operator.
pub proof fn law_compound_assignment_lowering(a: BinOp, b: BinOp, op: Node, lhs: Node, rhs: Node, skip: Node)
    ensures
        IrBinOp::is_plain(a) && IrBinOp::is_plain(b) && a != b ==> IrBinOp::spec_from(a)
            != IrBinOp::spec_from(b),
        a.is_compound() ==> IrBinOp::is_plain(a.plain_of()),
        a.is_compound() ==> IrBinOp::spec_from_assign(a) == IrBinOp::spec_from(a.plain_of()),
        IrBinOp::is_plain(a) ==> spec_bin_op_ir(op, lhs, rhs, a, skip) == seq![
            ItemOf::<Seq<Node>>::Sub(lhs),
            ItemOf::Sub(rhs),
            ItemOf::Op(IrOf::Bin { dst: op, lhs, rhs, bin: IrBinOp::spec_from(a) }),
        ],
        spec_bin_op_ir(op, lhs, rhs, BinOp::Assign, skip) == seq![
            ItemOf::<Seq<Node>>::Sub(lhs),
            ItemOf::Sub(rhs),
            ItemOf::Op(IrOf::Store { dst: lhs, src: rhs }),
        ],
        a.is_compound() ==> ({
            let c = spec_bin_op_ir(op, lhs, rhs, a, skip);
            let p = spec_bin_op_ir(op, lhs, rhs, a.plain_of(), skip);
            &&& c.len() == 3 && p.len() == 3
            &&& c[0] == p[0] && c[1] == p[1]
            &&& p[2] matches ItemOf::Op(IrOf::Bin { dst, lhs: l, rhs: r, bin })
            &&& dst == op && c[2] == ItemOf::<Seq<Node>>::Op(IrOf::Bin { dst: lhs, lhs: l, rhs: r, bin })
        }),
{
}

/// The position of the first label `label` in `items` from `i` on, or the
/// end where there is none.
pub open spec fn find_label(items: Seq<ItemV>, label: Node, i: int) -> int
    decreases items.len() - i,
{
    if i < 0 || i >= items.len() {
        items.len() as int
    } else if items[i] == ItemOf::<Seq<Node>>::Op(IrOf::Label { label }) {
        i
    } else {
        find_label(items, label, i + 1)
    }
}

/// The sub-node codes that running `items` from position `pc` goes
/// through, in order, for at most `fuel` steps, where the node `cond`
/// holds `c`: a jump goes to its label, a jump on zero or on not zero
/// that tests `cond` is taken as `c` says and one that tests another node
/// is not, and every other instruction goes on to the next.
pub open spec fn run_items(items: Seq<ItemV>, pc: int, cond: Node, c: u64, fuel: nat) -> Seq<Node>
    decreases fuel,
{
    if fuel == 0 || pc < 0 || pc >= items.len() {
        seq![]
    } else {
        let f = (fuel - 1) as nat;
        match items[pc] {
            ItemOf::Sub(n) => seq![n] + run_items(items, pc + 1, cond, c, f),
            ItemOf::Op(IrOf::Jump { label }) => run_items(items, find_label(items, label, 0), cond, c, f),
            ItemOf::Op(IrOf::JumpZero { label, arg }) => if arg == cond && c == 0 {
                run_items(items, find_label(items, label, 0), cond, c, f)
            } else {
                run_items(items, pc + 1, cond, c, f)
            },
            ItemOf::Op(IrOf::JumpNotZero { label, arg }) => if arg == cond && c != 0 {
                run_items(items, find_label(items, label, 0), cond, c, f)
            } else {
                run_items(items, pc + 1, cond, c, f)
            },
            _ => run_items(items, pc + 1, cond, c, f),
        }
    }
}

/// An `if` runs its condition, then its body exactly when the condition is
/// not zero, and then goes on after it.
pub proof fn law_if_runs_body_on_nonzero(condition: Node, body: Node, labels: Seq<Node>, c: u64)
    requires
        labels.len() == 3,
        labels[0] != labels[2],
        labels[1] != labels[2],
    ensures
        run_items(spec_if_ir(condition, body, labels), 0, condition, c, 8) == if c != 0 {
            seq![condition, body]
        } else {
            seq![condition]
        },
{
    let items = spec_if_ir(condition, body, labels);
    reveal_with_fuel(find_label, 7);
    assert(find_label(items, labels[2], 0) == 5);
    reveal_with_fuel(run_items, 9);
    assert(run_items(items, 6, condition, c, 2) == Seq::<Node>::empty());
    assert(run_items(items, 5, condition, c, 3) == Seq::<Node>::empty());
    if c != 0 {
        assert(run_items(items, 4, condition, c, 4) =~= seq![body]);
        assert(run_items(items, 2, condition, c, 6) =~= seq![body]);
        assert(run_items(items, 0, condition, c, 8) =~= seq![condition, body]);
    } else {
        assert(run_items(items, 2, condition, c, 6) =~= Seq::<Node>::empty());
        assert(run_items(items, 0, condition, c, 8) =~= seq![condition]);
    }
}

/// A `while` runs its condition and leaves where it is zero; where it is
/// not, it runs its body and goes back to run the condition again.
pub proof fn law_while_loops_on_nonzero(condition: Node, body: Node, labels: Seq<Node>, c: u64)
    requires
        labels.len() == 3,
        labels[0] != labels[2],
        labels[1] != labels[2],
        labels[0] != labels[1],
    ensures
        c == 0 ==> run_items(spec_while_ir(condition, body, labels), 0, condition, c, 10) == seq![condition],
        c != 0 ==> run_items(spec_while_ir(condition, body, labels), 0, condition, c, 8) == seq![
            condition,
            body,
            condition,
        ],
{
    let items = spec_while_ir(condition, body, labels);
    reveal_with_fuel(find_label, 8);
    assert(find_label(items, labels[2], 0) == 6);
    assert(find_label(items, labels[0], 0) == 0);
    reveal_with_fuel(run_items, 11);
    if c == 0 {
        assert(run_items(items, 6, condition, c, 7) =~= Seq::<Node>::empty());
        assert(run_items(items, 2, condition, c, 8) =~= Seq::<Node>::empty());
        assert(run_items(items, 0, condition, c, 10) =~= seq![condition]);
    } else {
        assert(run_items(items, 2, condition, c, 1) =~= Seq::<Node>::empty());
        assert(run_items(items, 1, condition, c, 2) =~= seq![condition]);
        assert(run_items(items, 0, condition, c, 3) =~= seq![condition]);
        assert(run_items(items, 5, condition, c, 4) =~= seq![condition]);
        assert(run_items(items, 4, condition, c, 5) =~= seq![body, condition]);
        assert(run_items(items, 3, condition, c, 6) =~= seq![body, condition]);
        assert(run_items(items, 2, condition, c, 7) =~= seq![body, condition]);
        assert(run_items(items, 0, condition, c, 8) =~= seq![condition, body, condition]);
    }
}

/// `&&` runs its right operand exactly when its left one is not zero, and
/// `||` exactly when it is zero; either way the left operand is run first.
pub proof fn law_logical_operators_short_circuit(op: Node, lhs: Node, rhs: Node, skip: Node, c: u64)
    requires
        lhs != op,
    ensures
        run_items(spec_bin_op_ir(op, lhs, rhs, BinOp::And, skip), 0, lhs, c, 8) == if c != 0 {
            seq![lhs, rhs]
        } else {
            seq![lhs]
        },
        run_items(spec_bin_op_ir(op, lhs, rhs, BinOp::Or, skip), 0, lhs, c, 8) == if c == 0 {
            seq![lhs, rhs]
        } else {
            seq![lhs]
        },
{
    let a = spec_bin_op_ir(op, lhs, rhs, BinOp::And, skip);
    let o = spec_bin_op_ir(op, lhs, rhs, BinOp::Or, skip);
    reveal_with_fuel(find_label, 7);
    assert(find_label(a, skip, 0) == 5);
    assert(find_label(o, skip, 0) == 5);
    reveal_with_fuel(run_items, 9);
    assert(run_items(a, 5, lhs, c, 5) =~= Seq::<Node>::empty());
    assert(run_items(o, 5, lhs, c, 5) =~= Seq::<Node>::empty());
    assert(run_items(a, 3, lhs, c, 5) =~= seq![rhs]);
    assert(run_items(o, 3, lhs, c, 5) =~= seq![rhs]);
    assert(run_items(a, 0, lhs, c, 8) =~= seq![lhs] + run_items(a, 2, lhs, c, 6));
    assert(run_items(o, 0, lhs, c, 8) =~= seq![lhs] + run_items(o, 2, lhs, c, 6));
}

/// The code of a binary operation, and the new stack slot that the node
/// gets, numbered by `counter`, which moves on; `skip` is the node of the
/// label that `bin_op_label` names, where there is one.
pub fn bin_op_ir(op: Node, lhs: Node, rhs: Node, bin: BinOp, skip: Node, counter: &mut usize) -> (r: (
    Vec<Item>,
    Arg,
))
    requires
        *old(counter) < usize::MAX,
    ensures
        items_v(r.0@) == spec_bin_op_ir(op, lhs, rhs, bin, skip),
        r.1 == Arg::Var(*old(counter)),
        *final(counter) == *old(counter) + 1,
{
    let slot = Arg::allocate(counter);
    let r = match bin {
        BinOp::And => vec![
            ItemOf::Sub(lhs),
            ItemOf::Op(IrOf::Store { dst: op, src: lhs }),
            ItemOf::Op(IrOf::JumpZero { label: skip, arg: lhs }),
            ItemOf::Sub(rhs),
            ItemOf::Op(IrOf::Store { dst: op, src: rhs }),
            ItemOf::Op(IrOf::Label { label: skip }),
        ],
        BinOp::Or => vec![
            ItemOf::Sub(lhs),
            ItemOf::Op(IrOf::Store { dst: op, src: lhs }),
            ItemOf::Op(IrOf::JumpNotZero { label: skip, arg: lhs }),
            ItemOf::Sub(rhs),
            ItemOf::Op(IrOf::Store { dst: op, src: rhs }),
            ItemOf::Op(IrOf::Label { label: skip }),
        ],
        BinOp::Assign => vec![ItemOf::Sub(lhs), ItemOf::Sub(rhs), ItemOf::Op(IrOf::Store { dst: lhs, src: rhs })],
        BinOp::AddAssign | BinOp::SubAssign | BinOp::MulAssign | BinOp::DivAssign | BinOp::ModAssign
        | BinOp::BitAndAssign | BinOp::BitOrAssign | BinOp::XorAssign | BinOp::ShlAssign
        | BinOp::ShrAssign => {
            let b = match bin {
                BinOp::AddAssign => IrBinOp::Add,
                BinOp::SubAssign => IrBinOp::Sub,
                BinOp::MulAssign => IrBinOp::Mul,
                BinOp::DivAssign => IrBinOp::Div,
                BinOp::ModAssign => IrBinOp::Mod,
                BinOp::BitAndAssign => IrBinOp::BitAnd,
                BinOp::BitOrAssign => IrBinOp::BitOr,
                BinOp::XorAssign => IrBinOp::Xor,
                BinOp::ShlAssign => IrBinOp::Shl,
                _ => IrBinOp::Shr,
            };
            vec![ItemOf::Sub(lhs), ItemOf::Sub(rhs), ItemOf::Op(IrOf::Bin { dst: lhs, lhs, rhs, bin: b })]
        },
        _ => vec![
            ItemOf::Sub(lhs),
            ItemOf::Sub(rhs),
            ItemOf::Op(
                IrOf::Bin { dst: op, lhs, rhs, bin: IrBinOp::expect_from_ast_bin_op_kind(bin) },
            ),
        ],
    };
    assert(items_v(r@) =~= spec_bin_op_ir(op, lhs, rhs, bin, skip));
    (r, slot)
}

/// The first procedure named `name`, if any.
pub open spec fn lookup_proc(procs: Seq<(Node, Seq<u8>)>, name: Seq<u8>, i: int) -> Option<Node>
    decreases procs.len() - i,
{
    if i < 0 || i >= procs.len() {
        None
    } else if procs[i].1 == name {
        Some(procs[i].0)
    } else {
        lookup_proc(procs, name, i + 1)
    }
}

/// The values of a list of named procedures.
pub open spec fn procs_v(procs: Seq<(Node, Vec<u8>)>) -> Seq<(Node, Seq<u8>)> {
    procs.map_values(|p: (Node, Vec<u8>)| (p.0, p.1@))
}

/// The code of a call at node `call` of type `ty` to the first procedure
/// named `name` among `procs`: evaluate the arguments, then call; the call
/// node holds the result unless the type is `()`.
pub open spec fn spec_call_ir(call: Node, name: Seq<u8>, args: Seq<Node>, ty: Type, procs: Seq<(Node, Seq<u8>)>) -> Option<Seq<ItemV>> {
    match lookup_proc(procs, name, 0) {
        None => None,
        Some(p) => Some(
            args.map_values(|a: Node| ItemOf::<Seq<Node>>::Sub(a)).push(
                ItemOf::Op(
                    IrOf::Call {
                        proc: p,
                        arguments: args,
                        result: if ty != Type::Not {
                            Some(call)
                        } else {
                            None
                        },
                    },
                ),
            ),
        ),
    }
}

/// The code of a call, with the new stack slot that a call of a type
/// other than `()` gets for its result, numbered by `counter`, which then
/// moves on; or the error for a call of an undefined procedure, which
/// leaves `counter` as it was.
pub fn call_ir(
    call: Node,
    name: &Vec<u8>,
    args: &Vec<Node>,
    span: Span,
    ty: Type,
    procs: &Vec<(Node, Vec<u8>)>,
    counter: &mut usize,
) -> (r: Result<(Vec<Item>, Option<Arg>), Error>)
    requires
        *old(counter) < usize::MAX,
    ensures
        match spec_call_ir(call, name@, args@, ty, procs_v(procs@)) {
            Some(items) => r matches Ok((v, slot)) && items_v(v@) == items && if ty != Type::Not {
                slot == Some(Arg::Var(*old(counter))) && *final(counter) == *old(counter) + 1
            } else {
                slot is None && *final(counter) == *old(counter)
            },
            None => r matches Err(e) && e == (Error { span, kind: ErrorKind::Custom("Undefined procedure") })
                && *final(counter) == *old(counter),
        },
{
    let ghost ps = procs_v(procs@);
    let mut i: usize = 0;
    while i < procs.len()
        invariant
            ps == procs_v(procs@),
            0 <= i <= procs@.len(),
            *counter == *old(counter),
            *old(counter) < usize::MAX,
            lookup_proc(ps, name@, 0) == lookup_proc(ps, name@, i as int),
        decreases procs@.len() - i,
    {
        if bytes_eq(&procs[i].1, name) {
            let items = call_items(call, procs[i].0, args, ty);
            let slot = if ty != Type::Not {
                Some(Arg::allocate(counter))
            } else {
                None
            };
            return Ok((items, slot));
        }
        i += 1;
    }
    Err(span.custom("Undefined procedure"))
}

/// The code of a call of `proc`.
fn call_items(call: Node, proc: Node, args: &Vec<Node>, ty: Type) -> (r: Vec<Item>)
    ensures
        items_v(r@) == args@.map_values(|a: Node| ItemOf::<Seq<Node>>::Sub(a)).push(
            ItemOf::Op(
                IrOf::Call {
                    proc,
                    arguments: args@,
                    result: if ty != Type::Not {
                        Some(call)
                    } else {
                        None
                    },
                },
            ),
        ),
{
    let mut r = block_ir(args);
    let result = if ty != Type::Not {
        Some(call)
    } else {
        None
    };
    let arguments = copy_nodes(args);
    r.push(ItemOf::Op(IrOf::Call { proc, arguments, result }));
    assert(items_v(r@) =~= args@.map_values(|a: Node| ItemOf::<Seq<Node>>::Sub(a)).push(
        ItemOf::Op(IrOf::Call { proc, arguments: args@, result }),
    ));
    r
}

/// A copy of a list of nodes.
pub fn copy_nodes(v: &Vec<Node>) -> (r: Vec<Node>)
    ensures
        r@ == v@,
{
    let mut r: Vec<Node> = Vec::new();
    let mut i: usize = 0;
    while i < v.len()
        invariant
            0 <= i <= v@.len(),
            r@ == v@.subrange(0, i as int),
        decreases v@.len() - i,
    {
        r.push(v[i]);
        i += 1;
        assert(r@ =~= v@.subrange(0, i as int));
    }
    assert(v@.subrange(0, i as int) =~= v@);
    r
}

/// The code of a procedure `proc` with a body: its prologue label, the
/// stack allocation of `allocations`, the loading of its arguments where
/// it has any, the body under its label, and the epilogue labelled by the
/// procedure itself. A procedure without body has no code.
pub open spec fn spec_proc_ir(
    proc: Node,
    args: Seq<Node>,
    result: Option<Node>,
    body: Option<Node>,
    prologue: Node,
    narrative: Node,
    allocations: Seq<Node>,
) -> Seq<ItemV> {
    match body {
        None => seq![],
        Some(b) => seq![
            ItemOf::Op(IrOf::Label { label: prologue }),
            ItemOf::Op(IrOf::Allocate { args: allocations }),
        ] + (if args.len() > 0 {
            seq![ItemOf::Op(IrOf::LoadArguments { arguments: args })]
        } else {
            seq![]
        }) + seq![
            ItemOf::Op(IrOf::Label { label: narrative }),
            ItemOf::Sub(b),
            ItemOf::Op(IrOf::Label { label: proc }),
            ItemOf::Op(IrOf::ReturnAndDeallocate { result }),
        ],
    }
}

/// A node below a procedure with the operand it was given, if any, and the
/// nodes below it.
pub struct ArgTree {
    pub node: Node,
    pub arg: Option<Arg>,
    pub children: Vec<ArgTree>,
}

/// The value of a node below a procedure.
pub struct ArgTreeV {
    pub node: Node,
    pub arg: Option<Arg>,
    pub children: Seq<ArgTreeV>,
}

impl ArgTree {
    pub open spec fn view_tree(&self) -> ArgTreeV
        decreases self,
    {
        ArgTreeV {
            node: self.node,
            arg: self.arg,
            children: Seq::new(
                self.children@.len(),
                |i: int|
                    if 0 <= i < self.children@.len() {
                        self.children@[i].view_tree()
                    } else {
                        arbitrary()
                    },
            ),
        }
    }
}

/// The nodes with a stack slot in `t`, depth first: the node itself before
/// those below it, and each child's before the next child's.
pub open spec fn tree_vars(t: ArgTreeV) -> Seq<Node>
    decreases t, t.children.len() + 1,
{
    (if t.arg matches Some(Arg::Var(_)) {
        seq![t.node]
    } else {
        seq![]
    }) + forest_vars(t, 0)
}

/// `tree_vars` of the children of `t` from the `i`-th on.
pub open spec fn forest_vars(t: ArgTreeV, i: int) -> Seq<Node>
    decreases t, t.children.len() - i,
{
    if i < 0 || i >= t.children.len() {
        seq![]
    } else {
        tree_vars(t.children[i]) + forest_vars(t, i + 1)
    }
}

/// The nodes with a stack slot below a procedure, depth first.
pub open spec fn proc_vars(children: Seq<ArgTree>) -> Seq<Node> {
    forest_vars(ArgTreeV { node: 0, arg: None, children: children.map_values(|c: ArgTree| c.view_tree()) }, 0)
}

/// Appends the nodes with a stack slot in `t`, depth first.
fn collect_vars(t: &ArgTree, out: &mut Vec<Node>)
    ensures
        final(out)@ == old(out)@ + tree_vars(t.view_tree()),
    decreases t,
{
    let ghost tv = t.view_tree();
    if let Some(Arg::Var(_)) = t.arg {
        out.push(t.node);
    }
    let ghost mid = out@;
    assert(mid == old(out)@ + (if tv.arg matches Some(Arg::Var(_)) {
        seq![tv.node]
    } else {
        seq![]
    }));
    let mut i: usize = 0;
    while i < t.children.len()
        invariant
            tv == t.view_tree(),
            0 <= i <= t.children@.len(),
            mid + forest_vars(tv, 0) == out@ + forest_vars(tv, i as int),
        decreases t.children@.len() - i,
    {
        assert(tv.children[i as int] == t.children@[i as int].view_tree());
        collect_vars(&t.children[i], out);
        i = i + 1;
    }
    assert(forest_vars(tv, i as int) =~= seq![]);
    assert(out@ =~= old(out)@ + tree_vars(tv));
}

/// The nodes with a stack slot below a procedure, depth first.
pub fn var_descendants(children: &Vec<ArgTree>) -> (r: Vec<Node>)
    ensures
        r@ == proc_vars(children@),
{
    let ghost root = ArgTreeV {
        node: 0,
        arg: None,
        children: children@.map_values(|c: ArgTree| c.view_tree()),
    };
    let mut out: Vec<Node> = Vec::new();
    let mut i: usize = 0;
    while i < children.len()
        invariant
            root.children == children@.map_values(|c: ArgTree| c.view_tree()),
            0 <= i <= children@.len(),
            forest_vars(root, 0) == out@ + forest_vars(root, i as int),
        decreases children@.len() - i,
    {
        assert(root.children[i as int] == children@[i as int].view_tree());
        collect_vars(&children[i], &mut out);
        i = i + 1;
    }
    assert(out@ =~= out@ + forest_vars(root, i as int));
    out
}

/// What lowering a procedure gives: its code, and the label nodes it makes
/// for its prologue and, where it has a body, for the body.
pub struct ProcCode {
    pub items: Vec<Item>,
    pub prologue: Node,
    pub narrative: Option<Node>,
}

/// The code of a procedure, given the nodes below it with their operands.
/// It makes a new label node for its prologue, and one for its body where
/// it has one, numbered on from `next_node`, which moves on; the stack
/// allocation holds the nodes below it that have a stack slot, depth
/// first.
pub fn proc_ir(
    proc: Node,
    args: &Vec<Node>,
    result: Option<Node>,
    body: Option<Node>,
    children: &Vec<ArgTree>,
    next_node: &mut Node,
) -> (r: ProcCode)
    requires
        *old(next_node) + 2 <= u64::MAX,
    ensures
        r.prologue == *old(next_node),
        body is Some ==> r.narrative == Some((*old(next_node) + 1) as Node) && *final(next_node)
            == *old(next_node) + 2,
        body is None ==> r.narrative is None && *final(next_node) == *old(next_node) + 1,
        items_v(r.items@) == spec_proc_ir(
            proc,
            args@,
            result,
            body,
            r.prologue,
            (r.prologue + 1) as Node,
            proc_vars(children@),
        ),
{
    let prologue = *next_node;
    *next_node = prologue + 1;
    let mut r: Vec<Item> = Vec::new();
    match body {
        None => {
            assert(items_v(r@) =~= seq![]);
            ProcCode { items: r, prologue, narrative: None }
        },
        Some(b) => {
            let narrative = prologue + 1;
            *next_node = narrative + 1;
            let allocations = var_descendants(children);
            r.push(ItemOf::Op(IrOf::Label { label: prologue }));
            r.push(ItemOf::Op(IrOf::Allocate { args: allocations }));
            if args.len() > 0 {
                r.push(ItemOf::Op(IrOf::LoadArguments { arguments: copy_nodes(args) }));
            }
            r.push(ItemOf::Op(IrOf::Label { label: narrative }));
            r.push(ItemOf::Sub(b));
            r.push(ItemOf::Op(IrOf::Label { label: proc }));
            r.push(ItemOf::Op(IrOf::ReturnAndDeallocate { result }));
            assert(items_v(r@) =~= spec_proc_ir(
                proc,
                args@,
                result,
                body,
                prologue,
                narrative,
                proc_vars(children@),
            ));
            ProcCode { items: r, prologue, narrative: Some(narrative) }
        },
    }
}

/// An operand: a stack slot, or a literal of the literal table.
#[derive(Debug, Clone, Copy, PartialEq, Eq, Structural)]
pub enum Arg {
    Var(usize),
    Lit(usize),
}

impl Arg {
    /// A new stack slot, numbered by `counter`, which moves on.
    pub fn allocate(counter: &mut usize) -> (r: Arg)
        requires
            *old(counter) < usize::MAX,
        ensures
            r == Arg::Var(*old(counter)),
            *final(counter) == *old(counter) + 1,
    {
        let r = Arg::Var(*counter);
        *counter = *counter + 1;
        r
    }
}

/// The literals of a program, each once, numbered by their position.
pub struct Literals {
    storage: Vec<Literal>,
}

/// The first position of `l` in `s`, if any.
pub open spec fn literal_index(s: Seq<LiteralV>, l: LiteralV) -> Option<int>
    decreases s.len(),
{
    if s.len() == 0 {
        None
    } else {
        match literal_index(s.drop_last(), l) {
            Some(i) => Some(i),
            None => if s.last() == l {
                Some(s.len() - 1)
            } else {
                None
            },
        }
    }
}

/// Whether no literal occurs twice.
pub open spec fn distinct(s: Seq<LiteralV>) -> bool {
    forall|i: int, j: int| 0 <= i < j < s.len() ==> s[i] != s[j]
}

impl Literals {
    /// The values of the stored literals.
    pub closed spec fn view_storage(&self) -> Seq<LiteralV> {
        self.storage@.map_values(|l: Literal| l@)
    }

    /// No literal is stored twice.
    #[verifier::type_invariant]
    closed spec fn no_repeats(&self) -> bool {
        distinct(self.view_storage())
    }

    /// An empty table.
    pub fn new() -> (r: Literals)
        ensures
            r.view_storage() == Seq::<LiteralV>::empty(),
    {
        let r = Literals { storage: Vec::new() };
        assert(r.view_storage() =~= Seq::<LiteralV>::empty());
        r
    }

    /// The number of stored literals.
    pub fn len(&self) -> (r: usize)
        ensures
            r == self.view_storage().len(),
    {
        self.storage.len()
    }

    /// The literal numbered `i`.
    pub fn get(&self, i: usize) -> (r: &Literal)
        requires
            i < self.view_storage().len(),
        ensures
            r@ == self.view_storage()[i as int],
    {
        &self.storage[i]
    }

    /// No literal is stored twice.
    pub fn no_repeats_held(&self)
        ensures
            distinct(self.view_storage()),
    {
        proof {
            use_type_invariant(self);
        }
    }

    /// The number of `literal`: the one it has, or the next one, where it
    /// is stored.
    pub fn allocate(&mut self, literal: Literal) -> (r: usize)
        ensures
            match literal_index(old(self).view_storage(), literal@) {
                Some(i) => r == i && final(self).view_storage() == old(self).view_storage(),
                None => r == old(self).view_storage().len() && final(self).view_storage()
                    == old(self).view_storage().push(literal@),
            },
            r < final(self).view_storage().len(),
            final(self).view_storage()[r as int] == literal@,
            distinct(final(self).view_storage()),
    {
        proof {
            use_type_invariant(&*self);
        }
        let ghost s = self.view_storage();
        proof {
            lemma_literal_index(s, literal@);
        }
        let mut i: usize = 0;
        while i < self.storage.len()
            invariant
                s == self.view_storage(),
                distinct(s),
                *self == *old(self),
                0 <= i <= s.len(),
                literal_index(s.subrange(0, i as int), literal@) is None,
            decreases s.len() - i,
        {
            assert(s.subrange(0, i + 1).drop_last() =~= s.subrange(0, i as int));
            if self.storage[i].same(&literal) {
                proof {
                    lemma_literal_index_extend(s, i as int, literal@);
                }
                return i;
            }
            i += 1;
        }
        assert(s.subrange(0, s.len() as int) =~= s);
        let n = self.storage.len();
        let mut stored: Vec<Literal> = Vec::new();
        std::mem::swap(&mut stored, &mut self.storage);
        stored.push(literal);
        proof {
            lemma_literal_index(s, literal@);
            assert(stored@.map_values(|l: Literal| l@) =~= s.push(literal@));
        }
        self.storage = stored;
        assert(self.view_storage() =~= s.push(literal@));
        n
    }
}

/// What the first position of a literal says.
proof fn lemma_literal_index(s: Seq<LiteralV>, l: LiteralV)
    ensures
        literal_index(s, l) matches Some(i) ==> 0 <= i < s.len() && s[i] == l,
        literal_index(s, l) is None ==> forall|k: int| 0 <= k < s.len() ==> s[k] != l,
    decreases s.len(),
{
    if s.len() > 0 {
        lemma_literal_index(s.drop_last(), l);
        assert forall|k: int| 0 <= k < s.len() - 1 implies s[k] == s.drop_last()[k] by {}
    }
}

/// Where `l` first occurs at position `i`, that is its index.
proof fn lemma_literal_index_extend(s: Seq<LiteralV>, i: int, l: LiteralV)
    requires
        0 <= i < s.len(),
        literal_index(s.subrange(0, i), l) is None,
        s[i] == l,
    ensures
        literal_index(s, l) == Some(i),
    decreases s.len(),
{
    if i + 1 < s.len() {
        assert(s.drop_last().subrange(0, i) =~= s.subrange(0, i));
        lemma_literal_index_extend(s.drop_last(), i, l);
    } else {
        assert(s.drop_last() =~= s.subrange(0, i));
    }
}

/// The layouts of the typed nodes, in order; a node of type `()` gets none.
pub open spec fn layouts(types: Seq<(Node, Type)>) -> Seq<(Node, Layout)>
    decreases types.len(),
{
    if types.len() == 0 {
        seq![]
    } else {
        let rest = layouts(types.drop_last());
        match spec_layout(types.last().1) {
            Some(l) => rest.push((types.last().0, l)),
            None => rest,
        }
    }
}

/// Gives every typed node the layout of its type, skipping those of type
/// `()`.
pub fn layout_types(types: &Vec<(Node, Type)>) -> (r: Vec<(Node, Layout)>)
    ensures
        r@ == layouts(types@),
{
    let mut out: Vec<(Node, Layout)> = Vec::new();
    let mut i: usize = 0;
    while i < types.len()
        invariant
            0 <= i <= types@.len(),
            out@ == layouts(types@.subrange(0, i as int)),
        decreases types@.len() - i,
    {
        assert(types@.subrange(0, i + 1).drop_last() =~= types@.subrange(0, i as int));
        if let Some(l) = layout_of(types[i].1) {
            out.push((types[i].0, l));
        }
        i = i + 1;
    }
    assert(types@.subrange(0, types@.len() as int) =~= types@);
    out
}

/// The literal table after storing each of `ls` in turn: those not yet
/// there are added at the end, in order.
pub open spec fn stored_after(s: Seq<LiteralV>, ls: Seq<LiteralV>) -> Seq<LiteralV>
    decreases ls.len(),
{
    if ls.len() == 0 {
        s
    } else {
        let t = stored_after(s, ls.drop_last());
        match literal_index(t, ls.last()) {
            Some(_) => t,
            None => t.push(ls.last()),
        }
    }
}

/// The literals of the literal nodes.
pub open spec fn node_literals(nodes: Seq<(Node, Literal)>) -> Seq<LiteralV> {
    nodes.map_values(|p: (Node, Literal)| p.1@)
}

/// Numbers every literal node by its literal in the table, storing the
/// literals that are new; gives each node its operand, in order.
pub fn allocate_literals(literals: &mut Literals, nodes: &Vec<(Node, Literal)>) -> (r: Vec<(Node, Arg)>)
    ensures
        final(literals).view_storage() == stored_after(
            old(literals).view_storage(),
            node_literals(nodes@),
        ),
        distinct(final(literals).view_storage()),
        r@.len() == nodes@.len(),
        forall|i: int|
            0 <= i < nodes@.len() ==> ((#[trigger] r@[i]).0 == nodes@[i].0 && (r@[i].1 matches Arg::Lit(k)
                && k < final(literals).view_storage().len() && final(literals).view_storage()[k as int]
                == nodes@[i].1@)),
{
    let ghost start = literals.view_storage();
    let mut out: Vec<(Node, Arg)> = Vec::new();
    let mut i: usize = 0;
    while i < nodes.len()
        invariant
            0 <= i <= nodes@.len(),
            literals.view_storage() == stored_after(start, node_literals(nodes@.subrange(0, i as int))),
            out@.len() == i,
            forall|j: int|
                0 <= j < i ==> ((#[trigger] out@[j]).0 == nodes@[j].0 && (out@[j].1 matches Arg::Lit(k)
                    && k < literals.view_storage().len() && literals.view_storage()[k as int]
                    == nodes@[j].1@)),
        decreases nodes@.len() - i,
    {
        let ghost before = literals.view_storage();
        assert(node_literals(nodes@.subrange(0, i + 1)).drop_last() =~= node_literals(
            nodes@.subrange(0, i as int),
        ));
        assert(node_literals(nodes@.subrange(0, i + 1)).last() == nodes@[i as int].1@);
        let k = literals.allocate(nodes[i].1.copy());
        proof {
            lemma_literal_index(before, nodes@[i as int].1@);
            assert forall|j: int| 0 <= j < before.len() implies literals.view_storage()[j]
                == before[j] by {}
        }
        out.push((nodes[i].0, Arg::Lit(k)));
        i = i + 1;
    }
    assert(nodes@.subrange(0, nodes@.len() as int) =~= nodes@);
    literals.no_repeats_held();
    out
}

/// The operand of the node `n` in a table of operands, if it has one.
pub open spec fn arg_of(args: Seq<(Node, Arg)>, n: Node) -> Option<Arg>
    decreases args.len(),
{
    if args.len() == 0 {
        None
    } else if args.last().0 == n {
        Some(args.last().1)
    } else {
        arg_of(args.drop_last(), n)
    }
}

/// Looks up the operand of a node: the last entry for it.
fn find_arg(args: &Vec<(Node, Arg)>, n: Node) -> (r: Option<Arg>)
    ensures
        r == arg_of(args@, n),
{
    let mut i: usize = args.len();
    assert(args@.subrange(0, args@.len() as int) =~= args@);
    while i > 0
        invariant
            0 <= i <= args@.len(),
            arg_of(args@, n) == arg_of(args@.subrange(0, i as int), n),
        decreases i,
    {
        assert(args@.subrange(0, i as int).drop_last() =~= args@.subrange(0, i - 1));
        if args[i - 1].0 == n {
            return Some(args[i - 1].1);
        }
        i = i - 1;
    }
    None
}

/// The stack slots of the declarations that are not constant, numbered
/// from `first` in order.
pub open spec fn slots(decls: Seq<Node>, first: nat) -> Seq<(Node, Arg)> {
    Seq::new(decls.len(), |i: int| (decls[i], Arg::Var((first + i) as usize)))
}

/// Gives every declaration its operand: each one that is not constant a
/// new stack slot, numbered on from `counter`, and each constant the
/// operand of the literal it was folded to, found in `literal_args`.
/// Gives `None` where a constant's literal has no operand.
pub fn allocate_declarations(
    counter: &mut usize,
    decls: &Vec<Node>,
    const_decls: &Vec<(Node, Node)>,
    literal_args: &Vec<(Node, Arg)>,
) -> (r: Option<Vec<(Node, Arg)>>)
    requires
        *old(counter) + decls@.len() <= usize::MAX,
    ensures
        *final(counter) == *old(counter) + decls@.len(),
        (forall|i: int| 0 <= i < const_decls@.len() ==> arg_of(literal_args@, (#[trigger] const_decls@[i]).1) is Some)
            <==> r is Some,
        r matches Some(v) ==> v@ == slots(decls@, *old(counter) as nat) + Seq::new(
            const_decls@.len(),
            |i: int| (const_decls@[i].0, arg_of(literal_args@, const_decls@[i].1).unwrap()),
        ),
{
    let ghost first = *counter;
    let mut out: Vec<(Node, Arg)> = Vec::new();
    let mut i: usize = 0;
    while i < decls.len()
        invariant
            0 <= i <= decls@.len(),
            first + decls@.len() <= usize::MAX,
            first == *old(counter),
            *counter == first + i,
            out@ == slots(decls@.subrange(0, i as int), first as nat),
        decreases decls@.len() - i,
    {
        let a = Arg::allocate(counter);
        out.push((decls[i], a));
        i = i + 1;
        assert(out@ =~= slots(decls@.subrange(0, i as int), first as nat));
    }
    assert(decls@.subrange(0, decls@.len() as int) =~= decls@);
    let ghost base = out@;
    let ghost consts = Seq::new(
        const_decls@.len(),
        |i: int| (const_decls@[i].0, arg_of(literal_args@, const_decls@[i].1).unwrap()),
    );
    let mut j: usize = 0;
    while j < const_decls.len()
        invariant
            0 <= j <= const_decls@.len(),
            first == *old(counter),
            *counter == first + decls@.len(),
            base == slots(decls@, first as nat),
            consts == Seq::new(
                const_decls@.len(),
                |i: int| (const_decls@[i].0, arg_of(literal_args@, const_decls@[i].1).unwrap()),
            ),
            forall|k: int| 0 <= k < j ==> arg_of(literal_args@, (#[trigger] const_decls@[k]).1) is Some,
            out@ == base + consts.subrange(0, j as int),
        decreases const_decls@.len() - j,
    {
        match find_arg(literal_args, const_decls[j].1) {
            None => {
                return None;
            },
            Some(a) => {
                out.push((const_decls[j].0, a));
            },
        }
        j = j + 1;
        assert(out@ =~= base + consts.subrange(0, j as int));
    }
    assert(consts.subrange(0, const_decls@.len() as int) =~= consts);
    Some(out)
}

/// Gives every variable, given with its declaration, the operand of that
/// declaration, or `None` where the declaration has none.
pub fn allocate_variables(variables: &Vec<(Node, Node)>, decl_args: &Vec<(Node, Arg)>) -> (r: Option<
    Vec<(Node, Arg)>,
>)
    ensures
        (forall|i: int| 0 <= i < variables@.len() ==> arg_of(decl_args@, (#[trigger] variables@[i]).1) is Some)
            <==> r is Some,
        r matches Some(v) ==> v@ == Seq::new(
            variables@.len(),
            |i: int| (variables@[i].0, arg_of(decl_args@, variables@[i].1).unwrap()),
        ),
{
    let ghost want = Seq::new(
        variables@.len(),
        |i: int| (variables@[i].0, arg_of(decl_args@, variables@[i].1).unwrap()),
    );
    let mut out: Vec<(Node, Arg)> = Vec::new();
    let mut i: usize = 0;
    while i < variables.len()
        invariant
            0 <= i <= variables@.len(),
            want == Seq::new(
                variables@.len(),
                |i: int| (variables@[i].0, arg_of(decl_args@, variables@[i].1).unwrap()),
            ),
            forall|k: int| 0 <= k < i ==> arg_of(decl_args@, (#[trigger] variables@[k]).1) is Some,
            out@ == want.subrange(0, i as int),
        decreases variables@.len() - i,
    {
        match find_arg(decl_args, variables[i].1) {
            None => {
                return None;
            },
            Some(a) => {
                out.push((variables[i].0, a));
            },
        }
        i = i + 1;
        assert(out@ =~= want.subrange(0, i as int));
    }
    assert(want.subrange(0, variables@.len() as int) =~= want);
    Some(out)
}

} // verus!
