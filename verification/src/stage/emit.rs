//! Assembly text for the instructions of the current front end: each
//! instruction in turn, with the stack slots of the current procedure and
//! the AAPCS64 assignment of arguments to registers and the stack.
use crate::ast::Layout;
use crate::ir::{checked_round_up, round_up};
use crate::stage::ir::{copy_nodes, items_v, Arg, Ir, IrBinOp, IrOf, IrV, Item, ItemOf, ItemV, Node};
use crate::text::{bytes, decimal, lemma_ascii_bytes, push_bytes, push_decimal, push_str};
use crate::stage::fold::{fold_value, modulus, pattern, value_of};
use crate::tree::{BinOp, Literal, LiteralOf, Type};
use vstd::prelude::*;

verus! {

/// What stops code generation with an error: a node that lacks what an
/// instruction needs of it.
#[derive(Debug, Clone, Copy, PartialEq, Eq, Structural)]
pub enum AsmError {
    NoLoadSrcArg,
    VarUnallocated,
    NoStrLabel,
    NoStoreDstArg(Node),
    StoreIntoNonVar,
    NoLabel,
    NoJumpLabel,
    NoJumpZeroLabel,
    NoJumpNotZeroLabel,
    NoAllocateArg,
    AllocateNonVar,
    NoAllocateLayout(Node),
    NoCallProc,
    NoProcPrologue,
    NoCallArgLayout,
    NoCallReturnLayout,
    NoLoadArgsLayout,
}

/// What code generation knows of a procedure: the label of its prologue,
/// if it has one, and how many named arguments it takes.
pub struct ProcInfo {
    pub prologue: Option<Vec<u8>>,
    pub named: usize,
}

/// What code generation reads of the nodes of the program: their operands,
/// layouts and assembly labels, the procedures, and the literal table.
pub struct AsmEnv {
    pub args: Vec<(Node, Arg)>,
    pub layouts: Vec<(Node, Layout)>,
    pub labels: Vec<(Node, Vec<u8>)>,
    pub procs: Vec<(Node, ProcInfo)>,
    pub literals: Vec<Literal>,
}

/// The position of the first entry of `table` from the `i`-th on whose key
/// is `k`.
pub open spec fn find_index<K, T>(table: Seq<(K, T)>, k: K, i: int) -> Option<int>
    decreases table.len() - i,
{
    if i < 0 || i >= table.len() {
        None
    } else if table[i].0 == k {
        Some(i)
    } else {
        find_index(table, k, i + 1)
    }
}

/// The value of the first entry of `table` whose key is `k`.
pub open spec fn find<K, T>(table: Seq<(K, T)>, k: K) -> Option<T> {
    match find_index(table, k, 0) {
        Some(i) => Some(table[i].1),
        None => None,
    }
}

/// The operand of a node.
pub open spec fn node_arg(env: AsmEnv, n: Node) -> Option<Arg> {
    find(env.args@, n)
}

/// The layout of a node.
pub open spec fn node_layout(env: AsmEnv, n: Node) -> Option<Layout> {
    find(env.layouts@, n)
}

/// The assembly label of a node.
pub open spec fn node_label(env: AsmEnv, n: Node) -> Option<Seq<u8>> {
    match find(env.labels@, n) {
        Some(l) => Some(l@),
        None => None,
    }
}

/// The prologue label and the number of named arguments of a procedure.
pub open spec fn node_proc(env: AsmEnv, n: Node) -> Option<(Option<Seq<u8>>, usize)> {
    match find(env.procs@, n) {
        Some(p) => Some(
            (
                match p.prologue {
                    Some(l) => Some(l@),
                    None => None,
                },
                p.named,
            ),
        ),
        None => None,
    }
}

/// The outcome of generating a piece of code: a value, an error, or a
/// panic of the generator.
pub enum Emitted<T> {
    Done(T),
    Failed(AsmError),
    Panics,
}

/// The register `x<n>`.
pub open spec fn reg(n: nat) -> Seq<u8> {
    bytes("x") + decimal(n)
}

/// The code that loads the operand of node `src` into register `dst`.
#[verifier::opaque]
pub open spec fn load_text(env: AsmEnv, stack: Seq<(usize, usize)>, dst: nat, src: Node) -> Emitted<
    Seq<u8>,
> {
    match node_arg(env, src) {
        None => Emitted::Failed(AsmError::NoLoadSrcArg),
        Some(Arg::Var(id)) => match find(stack, id) {
            None => Emitted::Failed(AsmError::VarUnallocated),
            Some(off) => Emitted::Done(
                bytes("\tldr ") + reg(dst) + bytes(", [x29, -") + decimal(off as nat) + bytes("]\n"),
            ),
        },
        Some(Arg::Lit(id)) => if id >= env.literals@.len() {
            Emitted::Panics
        } else {
            match env.literals@[id as int] {
                LiteralOf::Str(_) => match node_label(env, src) {
                    None => Emitted::Failed(AsmError::NoStrLabel),
                    Some(l) => Emitted::Done(
                        bytes("\tadrp ") + reg(dst) + bytes(", ") + l + bytes("@PAGE\n") + bytes(
                            "\tadd ",
                        ) + reg(dst) + bytes(", ") + reg(dst) + bytes(", ") + l + bytes("@PAGEOFF\n"),
                    ),
                },
                LiteralOf::Integer(n) => if n < 4096 {
                    Emitted::Done(bytes("\tmov ") + reg(dst) + bytes(", ") + decimal(n as nat) + bytes("\n"))
                } else {
                    Emitted::Done(bytes("\tldr ") + reg(dst) + bytes(", =") + decimal(n as nat) + bytes("\n"))
                },
            }
        },
    }
}

/// The code that stores register `src` into the slot of node `dst`.
#[verifier::opaque]
pub open spec fn store_reg_text(env: AsmEnv, stack: Seq<(usize, usize)>, dst: Node, src: nat) -> Emitted<
    Seq<u8>,
> {
    match node_arg(env, dst) {
        None => Emitted::Failed(AsmError::NoStoreDstArg(dst)),
        Some(Arg::Var(id)) => match find(stack, id) {
            None => Emitted::Failed(AsmError::VarUnallocated),
            Some(off) => Emitted::Done(
                bytes("\tstr ") + reg(src) + bytes(", [x29, -") + decimal(off as nat) + bytes("]\n"),
            ),
        },
        Some(Arg::Lit(_)) => Emitted::Failed(AsmError::StoreIntoNonVar),
    }
}

/// Two pieces of code one after the other, or the first failure.
pub open spec fn then(a: Emitted<Seq<u8>>, b: Emitted<Seq<u8>>) -> Emitted<Seq<u8>> {
    match a {
        Emitted::Done(x) => match b {
            Emitted::Done(y) => Emitted::Done(x + y),
            other => other,
        },
        other => other,
    }
}

/// The mnemonic of an arithmetic or bitwise operator.
pub open spec fn arith_mnemonic(bin: IrBinOp) -> Option<Seq<u8>> {
    match bin {
        IrBinOp::Add => Some(bytes("add")),
        IrBinOp::Sub => Some(bytes("sub")),
        IrBinOp::Mul => Some(bytes("mul")),
        IrBinOp::Div => Some(bytes("udiv")),
        IrBinOp::BitAnd => Some(bytes("and")),
        IrBinOp::BitOr => Some(bytes("orr")),
        IrBinOp::Xor => Some(bytes("eor")),
        IrBinOp::Shr => Some(bytes("lsr")),
        IrBinOp::Shl => Some(bytes("lsl")),
        _ => None,
    }
}

/// The condition of a comparison.
pub open spec fn condition(bin: IrBinOp) -> Option<Seq<u8>> {
    match bin {
        IrBinOp::Eq => Some(bytes("eq")),
        IrBinOp::Ne => Some(bytes("ne")),
        IrBinOp::Gt => Some(bytes("gt")),
        IrBinOp::Ge => Some(bytes("ge")),
        IrBinOp::Lt => Some(bytes("lt")),
        IrBinOp::Le => Some(bytes("le")),
        _ => None,
    }
}

/// The code of a binary operation on `x10` and `x11` into `x9`.
pub open spec fn bin_text(bin: IrBinOp) -> Seq<u8> {
    match arith_mnemonic(bin) {
        Some(op) => bytes("\t") + op + bytes(" x9, x10, x11\n"),
        None => match condition(bin) {
            Some(c) => bytes("\tcmp x10, x11\n") + bytes("\tcset x9, ") + c + bytes("\n"),
            None => bytes("\tudiv x9, x10, x11\n") + bytes("\tmsub x9, x9, x11, x10\n"),
        },
    }
}

/// The flags that `cmp` sets on registers holding `a` and `b`, as the
/// signed conditions read them: whether the difference, wrapped to 64
/// bits, is negative (N) or zero (Z), and whether the signed subtraction
/// overflowed (V).
pub open spec fn compare_flags(a: i64, b: i64) -> (bool, bool, bool) {
    let d = a - b;
    let w = if d > i64::MAX {
        d - 0x1_0000_0000_0000_0000
    } else if d < i64::MIN {
        d + 0x1_0000_0000_0000_0000
    } else {
        d
    };
    (w < 0, w == 0, w != d)
}

/// Whether the AArch64 condition named `c` holds on the flags N, Z and V.
pub open spec fn condition_holds(c: Seq<u8>, n: bool, z: bool, v: bool) -> bool {
    if c == bytes("eq") {
        z
    } else if c == bytes("ne") {
        !z
    } else if c == bytes("gt") {
        !z && n == v
    } else if c == bytes("ge") {
        n == v
    } else if c == bytes("lt") {
        n != v
    } else if c == bytes("le") {
        z || n != v
    } else {
        false
    }
}

/// The code of a comparison compares `x10` with `x11` and sets `x9` to one
/// exactly when the comparison holds between the two registers read as
/// signed 64-bit values, and to zero otherwise: its condition holds on the
/// flags of the compare exactly then. Only the six comparisons have a
/// condition.
pub proof fn law_comparison_code(bin: IrBinOp, a: i64, b: i64)
    ensures
        condition(bin) is Some <==> (bin is Eq || bin is Ne || bin is Gt || bin is Ge || bin is Lt
            || bin is Le),
        condition(bin) matches Some(c) ==> bin_text(bin) == bytes("\tcmp x10, x11\n") + bytes(
            "\tcset x9, ",
        ) + c + bytes("\n"),
        condition(bin) matches Some(c) ==> ({
            let (n, z, v) = compare_flags(a, b);
            condition_holds(c, n, z, v) <==> match bin {
                IrBinOp::Eq => a == b,
                IrBinOp::Ne => a != b,
                IrBinOp::Gt => a > b,
                IrBinOp::Ge => a >= b,
                IrBinOp::Lt => a < b,
                _ => a <= b,
            }
        }),
{
    reveal_strlit("eq");
    reveal_strlit("ne");
    reveal_strlit("gt");
    reveal_strlit("ge");
    reveal_strlit("lt");
    reveal_strlit("le");
    lemma_ascii_bytes("eq");
    lemma_ascii_bytes("ne");
    lemma_ascii_bytes("gt");
    lemma_ascii_bytes("ge");
    lemma_ascii_bytes("lt");
    lemma_ascii_bytes("le");
    let e = bytes("eq");
    let ne = bytes("ne");
    let gt = bytes("gt");
    let ge = bytes("ge");
    let lt = bytes("lt");
    let le = bytes("le");
    assert(e[0] != ne[0] && e[0] != gt[0] && e[0] != ge[0] && e[0] != lt[0] && e[0] != le[0]);
    assert(ne[0] != gt[0] && ne[0] != ge[0] && ne[0] != lt[0] && ne[0] != le[0]);
    assert(gt[1] != ge[1] && gt[0] != lt[0] && gt[0] != le[0]);
    assert(ge[0] != lt[0] && ge[0] != le[0]);
    assert(lt[1] != le[1]);
}

/// What the AArch64 instruction with mnemonic `mn` leaves in `x9` when it
/// operates on `x10` holding `a` and `x11` holding `b`: arithmetic modulo
/// two to the 64, unsigned division (zero for a zero divisor), bitwise
/// operations, and shifts by the amount modulo 64.
pub open spec fn machine_op(mn: Seq<u8>, a: u64, b: u64) -> Option<int> {
    let m = 0x1_0000_0000_0000_0000int;
    if mn == bytes("add") {
        Some((a + b) % m)
    } else if mn == bytes("sub") {
        Some((a - b) % m)
    } else if mn == bytes("mul") {
        Some((a * b) % m)
    } else if mn == bytes("udiv") {
        Some(if b == 0 { 0 } else { (a / b) as int })
    } else if mn == bytes("and") {
        Some((a & b) as int)
    } else if mn == bytes("orr") {
        Some((a | b) as int)
    } else if mn == bytes("eor") {
        Some((a ^ b) as int)
    } else if mn == bytes("lsr") {
        Some((a >> ((b % 64) as u64)) as int)
    } else if mn == bytes("lsl") {
        Some((a << ((b % 64) as u64)) as int)
    } else {
        None
    }
}

/// The 64-bit word that holds the signed value `x`.
pub open spec fn signed_word(x: i64) -> u64 {
    if x >= 0 {
        x as u64
    } else {
        (x + 0x1_0000_0000_0000_0000int) as u64
    }
}

/// The mnemonics are different texts.
pub proof fn lemma_mnemonics()
    ensures
        bytes("add") == seq![97u8, 100, 100],
        bytes("sub") == seq![115u8, 117, 98],
        bytes("mul") == seq![109u8, 117, 108],
        bytes("udiv") == seq![117u8, 100, 105, 118],
        bytes("and") == seq![97u8, 110, 100],
        bytes("orr") == seq![111u8, 114, 114],
        bytes("eor") == seq![101u8, 111, 114],
        bytes("lsr") == seq![108u8, 115, 114],
        bytes("lsl") == seq![108u8, 115, 108],
{
    reveal_strlit("add");
    reveal_strlit("sub");
    reveal_strlit("mul");
    reveal_strlit("udiv");
    reveal_strlit("and");
    reveal_strlit("orr");
    reveal_strlit("eor");
    reveal_strlit("lsr");
    reveal_strlit("lsl");
    lemma_ascii_bytes("add");
    lemma_ascii_bytes("sub");
    lemma_ascii_bytes("mul");
    lemma_ascii_bytes("udiv");
    lemma_ascii_bytes("and");
    lemma_ascii_bytes("orr");
    lemma_ascii_bytes("eor");
    lemma_ascii_bytes("lsr");
    lemma_ascii_bytes("lsl");
    assert(bytes("add") =~= seq![97u8, 100, 100]);
    assert(bytes("sub") =~= seq![115u8, 117, 98]);
    assert(bytes("mul") =~= seq![109u8, 117, 108]);
    assert(bytes("udiv") =~= seq![117u8, 100, 105, 118]);
    assert(bytes("and") =~= seq![97u8, 110, 100]);
    assert(bytes("orr") =~= seq![111u8, 114, 114]);
    assert(bytes("eor") =~= seq![101u8, 111, 114]);
    assert(bytes("lsr") =~= seq![108u8, 115, 114]);
    assert(bytes("lsl") =~= seq![108u8, 115, 108]);
}

/// The code compiled for a binary operator computes what constant folding
/// computes for it: on 64-bit unsigned words, the instruction chosen for an
/// arithmetic or bitwise operator leaves in `x9` the folded result, and the
/// division and multiply-subtract of a remainder leave the folded
/// remainder; on signed 64-bit values, a comparison sets `x9` to one
/// exactly where folding gives one.
pub proof fn law_code_computes_folded_value(op: BinOp, a: u64, b: u64, x: i64, y: i64)
    ensures
        (op is Add || op is Sub || op is Mul || op is BitAnd || op is BitOr || op is Xor || op is Shr
            || op is Shl || (op is Div && b != 0)) ==> ({
            &&& arith_mnemonic(IrBinOp::spec_from(op)) matches Some(mn)
            &&& machine_op(mn, a, b) == Some(fold_value(Type::U64, a, b, op) as int)
        }),
        op is Mod && b != 0 ==> ({
            &&& bin_text(IrBinOp::spec_from(op)) == bytes("\tudiv x9, x10, x11\n") + bytes(
                "\tmsub x9, x9, x11, x10\n",
            )
            &&& a - (a / b) * b == fold_value(Type::U64, a, b, op) as int
        }),
        (op is Eq || op is Ne || op is Gt || op is Ge || op is Lt || op is Le) ==> ({
            let (n, z, v) = compare_flags(x, y);
            &&& condition(IrBinOp::spec_from(op)) matches Some(c)
            &&& condition_holds(c, n, z, v) <==> fold_value(Type::I64, signed_word(x), signed_word(y), op)
                == 1
        }),
{
    let m = 0x1_0000_0000_0000_0000int;
    lemma_mnemonics();
    assert(modulus(Type::U64) == m);
    assert(pattern(Type::U64, a) == a && pattern(Type::U64, b) == b) by {
        vstd::arithmetic::div_mod::lemma_small_mod(a as nat, m as nat);
        vstd::arithmetic::div_mod::lemma_small_mod(b as nat, m as nat);
    }
    assert(value_of(Type::U64, a) == a && value_of(Type::U64, b) == b);
    if op is Shl {
        let k = (b % 64) as u64;
        assert((a << k) & 0xffff_ffff_ffff_ffffu64 == a << k) by (bit_vector);
    }
    if op is Div && b != 0 {
        assert(a / b <= a) by {
            vstd::arithmetic::div_mod::lemma_div_is_ordered_by_denominator(a as int, 1, b as int);
        }
        vstd::arithmetic::div_mod::lemma_small_mod((a / b) as nat, m as nat);
    }
    if op is Mod && b != 0 {
        vstd::arithmetic::div_mod::lemma_fundamental_div_mod(a as int, b as int);
        vstd::arithmetic::div_mod::lemma_mod_bound(a as int, b as int);
        vstd::arithmetic::div_mod::lemma_small_mod((a % b) as nat, m as nat);
        assert(a - (a / b) * b == a % b) by (nonlinear_arith)
            requires
                a == b * (a / b) + a % b,
        ;
    }
    if op is Eq || op is Ne || op is Gt || op is Ge || op is Lt || op is Le {
        let wx = signed_word(x);
        let wy = signed_word(y);
        vstd::arithmetic::div_mod::lemma_small_mod(wx as nat, m as nat);
        vstd::arithmetic::div_mod::lemma_small_mod(wy as nat, m as nat);
        assert(modulus(Type::I64) == m);
        assert(value_of(Type::I64, wx) == x && value_of(Type::I64, wy) == y);
        law_comparison_code(IrBinOp::spec_from(op), x, y);
    }
}

/// `x` rounded up to a multiple of `m`, or `None` where that panics: for a
/// zero `m`, or past the range of `usize`.
pub open spec fn next_multiple(x: usize, m: usize) -> Option<usize> {
    if m == 0 || round_up(x as int, m as int) > usize::MAX {
        None
    } else {
        Some(round_up(x as int, m as int) as usize)
    }
}

/// The stack slots of the variables among `args` from the `i`-th on, the
/// first one of each variable, laid out from `offset` on.
pub open spec fn alloc_slots(
    env: AsmEnv,
    args: Seq<Node>,
    i: int,
    slots: Seq<(usize, usize)>,
    offset: usize,
) -> Emitted<(Seq<(usize, usize)>, usize)>
    decreases args.len() - i,
{
    if i < 0 || i >= args.len() {
        Emitted::Done((slots, offset))
    } else {
        match node_arg(env, args[i]) {
            None => Emitted::Failed(AsmError::NoAllocateArg),
            Some(Arg::Lit(_)) => Emitted::Failed(AsmError::AllocateNonVar),
            Some(Arg::Var(index)) => if find(slots, index) is Some {
                alloc_slots(env, args, i + 1, slots, offset)
            } else {
                match node_layout(env, args[i]) {
                    None => Emitted::Failed(AsmError::NoAllocateLayout(args[i])),
                    Some(layout) => match next_multiple(offset, layout.align) {
                        None => Emitted::Panics,
                        Some(at) => if at + layout.size > usize::MAX {
                            Emitted::Panics
                        } else {
                            alloc_slots(
                                env,
                                args,
                                i + 1,
                                slots.push((index, at)),
                                (at + layout.size) as usize,
                            )
                        },
                    },
                }
            }
        }
    }
}

/// The state code generation threads through the instructions: the text
/// so far, the stack slots of the current procedure, if one is open, and
/// the size of its frame and the offset of its caller's stacked arguments.
pub struct EmitState {
    pub text: Seq<u8>,
    pub stack: Option<Seq<(usize, usize)>>,
    pub stack_size: usize,
    pub callee_offset: usize,
}

/// `st` with `t` appended to its text.
pub open spec fn append(st: EmitState, t: Seq<u8>) -> EmitState {
    EmitState { text: st.text + t, ..st }
}

/// The larger of two numbers.
pub open spec fn max(a: usize, b: usize) -> usize {
    if a >= b {
        a
    } else {
        b
    }
}

/// The code that passes the arguments of a call from the `i`-th on, given
/// the next general register `ngrn` and the next stacked argument offset
/// `nsaa`: the code so far and the final `nsaa`.
pub open spec fn call_args_text(
    env: AsmEnv,
    stack: Seq<(usize, usize)>,
    named: usize,
    args: Seq<Node>,
    i: int,
    ngrn: nat,
    nsaa: usize,
    text: Seq<u8>,
) -> Emitted<(Seq<u8>, usize)>
    decreases args.len() - i,
{
    if i < 0 || i >= args.len() {
        Emitted::Done((text, nsaa))
    } else {
        match node_layout(env, args[i]) {
            None => Emitted::Failed(AsmError::NoCallArgLayout),
            Some(layout) => {
                let g0: nat = if i >= named {
                    8
                } else {
                    ngrn
                };
                if !layout.composite && layout.size <= 8 && g0 < 8 {
                    match load_text(env, stack, g0, args[i]) {
                        Emitted::Done(t) => call_args_text(env, stack, named, args, i + 1, g0 + 1, nsaa, text + t),
                        Emitted::Failed(e) => Emitted::Failed(e),
                        Emitted::Panics => Emitted::Panics,
                    }
                } else {
                    let g1: nat = if layout.align == 16 {
                        round_up(g0 as int, 2) as nat
                    } else {
                        g0
                    };
                    if layout.composite && layout.size / 8 + (if layout.size % 8 == 0 {
                        0int
                    } else {
                        1int
                    }) <= 8 - g1 {
                        Emitted::Panics
                    } else {
                        match next_multiple(nsaa, max(8, layout.align)) {
                            None => Emitted::Panics,
                            Some(at) => if layout.composite || layout.size > 8 {
                                Emitted::Panics
                            } else {
                                match load_text(env, stack, 9, args[i]) {
                                    Emitted::Done(t) => if at + 8 > usize::MAX {
                                        Emitted::Panics
                                    } else {
                                        call_args_text(
                                            env,
                                            stack,
                                            named,
                                            args,
                                            i + 1,
                                            8,
                                            (at + 8) as usize,
                                            text + t + bytes("\tstr x9, [sp, ") + decimal(at as nat)
                                                + bytes("]\n"),
                                        )
                                    },
                                    Emitted::Failed(e) => Emitted::Failed(e),
                                    Emitted::Panics => Emitted::Panics,
                                }
                            },
                        }
                    }
                }
            },
        }
    }
}

/// The code that takes the arguments of a procedure from the `i`-th on into
/// their slots, the reverse of passing them; `offset` is where the
/// caller's stacked arguments start.
pub open spec fn load_args_text(
    env: AsmEnv,
    stack: Seq<(usize, usize)>,
    offset: usize,
    args: Seq<Node>,
    i: int,
    ngrn: nat,
    nsaa: usize,
    text: Seq<u8>,
) -> Emitted<Seq<u8>>
    decreases args.len() - i,
{
    if i < 0 || i >= args.len() {
        Emitted::Done(text)
    } else {
        match node_layout(env, args[i]) {
            None => Emitted::Failed(AsmError::NoLoadArgsLayout),
            Some(layout) => if !layout.composite && layout.size <= 8 && ngrn < 8 {
                match store_reg_text(env, stack, args[i], ngrn) {
                    Emitted::Done(t) => load_args_text(env, stack, offset, args, i + 1, ngrn + 1, nsaa, text + t),
                    Emitted::Failed(e) => Emitted::Failed(e),
                    Emitted::Panics => Emitted::Panics,
                }
            } else {
                match next_multiple(nsaa, max(8, layout.align)) {
                    None => Emitted::Panics,
                    Some(at) => if layout.size > 8 || at + offset > usize::MAX || at + 8 > usize::MAX {
                        Emitted::Panics
                    } else {
                        match store_reg_text(env, stack, args[i], 9) {
                            Emitted::Done(t) => load_args_text(
                                env,
                                stack,
                                offset,
                                args,
                                i + 1,
                                8,
                                (at + 8) as usize,
                                text + bytes("\tldr x9, [sp, ") + decimal((at + offset) as nat) + bytes(
                                    "]\n",
                                ) + t,
                            ),
                            Emitted::Failed(e) => Emitted::Failed(e),
                            Emitted::Panics => Emitted::Panics,
                        }
                    },
                }
            },
        }
    }
}

/// The code that keeps the result of a call, in `x0`, in the slot of node
/// `r`, which must be one double word.
pub open spec fn call_result_text(env: AsmEnv, stack: Seq<(usize, usize)>, result: Option<Node>) -> Emitted<
    Seq<u8>,
> {
    match result {
        None => Emitted::Done(seq![]),
        Some(r) => match node_layout(env, r) {
            None => Emitted::Failed(AsmError::NoCallReturnLayout),
            Some(layout) => if layout.composite || layout.size != 8 || layout.align != 8 {
                Emitted::Panics
            } else {
                store_reg_text(env, stack, r, 0)
            },
        },
    }
}

/// The code of a call of `proc`: the arguments, the stack space for the
/// stacked ones put before them, the branch, and the result.
pub open spec fn call_text(
    env: AsmEnv,
    stack: Seq<(usize, usize)>,
    symbol: Seq<u8>,
    named: usize,
    args: Seq<Node>,
    result: Option<Node>,
) -> Emitted<Seq<u8>> {
    match call_args_text(env, stack, named, args, 0, 0, 0, seq![]) {
        Emitted::Done((t, nsaa)) => match next_multiple(nsaa, 16) {
            None => Emitted::Panics,
            Some(size) => then(
                Emitted::Done(
                    (if size > 0 {
                        bytes("\tsub sp, sp, ") + decimal(size as nat) + bytes("\n")
                    } else {
                        seq![]
                    }) + t + bytes("\tbl ") + symbol + bytes("\n") + (if size > 0 {
                        bytes("\tadd sp, sp, ") + decimal(size as nat) + bytes("\n")
                    } else {
                        seq![]
                    }),
                ),
                call_result_text(env, stack, result),
            ),
        },
        Emitted::Failed(e) => Emitted::Failed(e),
        Emitted::Panics => Emitted::Panics,
    }
}

/// `st` with the code `t` appended, or the failure of `t`.
pub open spec fn emit_text(st: EmitState, t: Emitted<Seq<u8>>) -> Emitted<EmitState> {
    match t {
        Emitted::Done(x) => Emitted::Done(append(st, x)),
        Emitted::Failed(e) => Emitted::Failed(e),
        Emitted::Panics => Emitted::Panics,
    }
}

/// The code of a store.
pub open spec fn emit_store(env: AsmEnv, st: EmitState, dst: Node, src: Node) -> Emitted<EmitState> {
    match st.stack {
        None => Emitted::Panics,
        Some(stack) => emit_text(st, then(load_text(env, stack, 9, src), store_reg_text(env, stack, dst, 9))),
    }
}

/// The code of a negation.
pub open spec fn emit_unary(env: AsmEnv, st: EmitState, dst: Node, src: Node) -> Emitted<EmitState> {
    match st.stack {
        None => Emitted::Panics,
        Some(stack) => emit_text(
            st,
            then(
                then(load_text(env, stack, 9, src), Emitted::Done(bytes("\tmvn x9, x9\n"))),
                store_reg_text(env, stack, dst, 9),
            ),
        ),
    }
}

/// The code of a binary operation.
pub open spec fn emit_bin(env: AsmEnv, st: EmitState, dst: Node, lhs: Node, rhs: Node, bin: IrBinOp) -> Emitted<
    EmitState,
> {
    match st.stack {
        None => Emitted::Panics,
        Some(stack) => emit_text(
            st,
            then(
                then(
                    then(load_text(env, stack, 10, lhs), load_text(env, stack, 11, rhs)),
                    Emitted::Done(bin_text(bin)),
                ),
                store_reg_text(env, stack, dst, 9),
            ),
        ),
    }
}

/// The code of a conditional jump: `cbz` where `zero`, else `cbnz`.
pub open spec fn emit_branch(env: AsmEnv, st: EmitState, label: Node, arg: Node, zero: bool) -> Emitted<
    EmitState,
> {
    match node_label(env, label) {
        None => Emitted::Failed(
            if zero {
                AsmError::NoJumpZeroLabel
            } else {
                AsmError::NoJumpNotZeroLabel
            },
        ),
        Some(l) => match st.stack {
            None => Emitted::Panics,
            Some(stack) => emit_text(
                st,
                then(
                    load_text(env, stack, 9, arg),
                    Emitted::Done(
                        (if zero {
                            bytes("\tcbz x9, ")
                        } else {
                            bytes("\tcbnz x9, ")
                        }) + l + bytes("\n"),
                    ),
                ),
            ),
        },
    }
}

/// The code of a binary operation loads its left operand into `x10` and
/// its right one into `x11`, the first and second operands of the
/// instruction, computes into `x9` and stores `x9` into the destination.
pub proof fn law_binary_operands_in_order(env: AsmEnv, st: EmitState, dst: Node, lhs: Node, rhs: Node, bin: IrBinOp)
    ensures
        emit_bin(env, st, dst, lhs, rhs, bin) matches Emitted::Done(st2) ==> ({
            let stack = st.stack.unwrap();
            &&& load_text(env, stack, 10, lhs) matches Emitted::Done(l)
            &&& load_text(env, stack, 11, rhs) matches Emitted::Done(r)
            &&& store_reg_text(env, stack, dst, 9) matches Emitted::Done(s)
            &&& st2.text == st.text + l + r + bin_text(bin) + s
        }),
{
    if let Emitted::Done(st2) = emit_bin(env, st, dst, lhs, rhs, bin) {
        let stack = st.stack.unwrap();
        let l = load_text(env, stack, 10, lhs)->Done_0;
        let r = load_text(env, stack, 11, rhs)->Done_0;
        let s = store_reg_text(env, stack, dst, 9)->Done_0;
        assert(st2.text =~= st.text + l + r + bin_text(bin) + s);
    }
}

/// Whether the AArch64 branch with mnemonic `mn` on a register is taken
/// when the register holds `v`.
pub open spec fn branch_taken(mn: Seq<u8>, v: u64) -> bool {
    if mn == bytes("cbz") {
        v == 0
    } else if mn == bytes("cbnz") {
        v != 0
    } else {
        false
    }
}

/// A conditional jump loads its operand into `x9` and then branches to the
/// label with an instruction that is taken exactly when the operand is
/// zero, for a jump on zero, or exactly when it is not, for a jump on not
/// zero.
pub proof fn law_branch_on_zero(env: AsmEnv, st: EmitState, label: Node, arg: Node, zero: bool, v: u64)
    ensures
        emit_branch(env, st, label, arg, zero) matches Emitted::Done(st2) ==> exists|
            load: Seq<u8>,
            mn: Seq<u8>,
            l: Seq<u8>,
        |
            #![auto]
            st2.text == st.text + load + bytes("\t") + mn + bytes(" x9, ") + l + bytes("\n") && (
            branch_taken(mn, v) <==> (zero == (v == 0))),
{
    reveal_strlit("\tcbz x9, ");
    reveal_strlit("\tcbnz x9, ");
    reveal_strlit("\t");
    reveal_strlit(" x9, ");
    reveal_strlit("cbz");
    reveal_strlit("cbnz");
    lemma_ascii_bytes("\tcbz x9, ");
    lemma_ascii_bytes("\tcbnz x9, ");
    lemma_ascii_bytes("\t");
    lemma_ascii_bytes(" x9, ");
    lemma_ascii_bytes("cbz");
    lemma_ascii_bytes("cbnz");
    assert(bytes("\tcbz x9, ") =~= bytes("\t") + bytes("cbz") + bytes(" x9, "));
    assert(bytes("\tcbnz x9, ") =~= bytes("\t") + bytes("cbnz") + bytes(" x9, "));
    assert(bytes("cbz").len() != bytes("cbnz").len());
    if let Emitted::Done(st2) = emit_branch(env, st, label, arg, zero) {
        let l = node_label(env, label).unwrap();
        let stack = st.stack.unwrap();
        let load = load_text(env, stack, 9, arg)->Done_0;
        let mn = if zero {
            bytes("cbz")
        } else {
            bytes("cbnz")
        };
        assert(st2.text =~= st.text + load + bytes("\t") + mn + bytes(" x9, ") + l + bytes("\n"));
    }
}

/// The code that opens the frame of a procedure.
pub open spec fn emit_allocate(env: AsmEnv, st: EmitState, args: Seq<Node>) -> Emitted<EmitState> {
    match alloc_slots(env, args, 0, seq![], 8) {
        Emitted::Done((slots, offset)) => match next_multiple(offset, 16) {
            None => Emitted::Panics,
            Some(size) => if size + 16 > usize::MAX {
                Emitted::Panics
            } else {
                let callee = (size + 16) as usize;
                Emitted::Done(
                    EmitState {
                        text: st.text + bytes("\tsub sp, sp, ") + decimal(callee as nat) + bytes("\n")
                            + bytes("\tstp x29, x30, [sp, ") + decimal(size as nat) + bytes("]\n")
                            + bytes("\tadd x29, sp, ") + decimal(size as nat) + bytes("\n"),
                        stack: Some(slots),
                        stack_size: size,
                        callee_offset: callee,
                    },
                )
            },
        },
        Emitted::Failed(e) => Emitted::Failed(e),
        Emitted::Panics => Emitted::Panics,
    }
}

/// The code of a call.
pub open spec fn emit_call(env: AsmEnv, st: EmitState, proc: Node, arguments: Seq<Node>, result: Option<Node>) -> Emitted<
    EmitState,
> {
    match node_proc(env, proc) {
        None => Emitted::Failed(AsmError::NoCallProc),
        Some((prologue, named)) => match prologue {
            None => Emitted::Failed(AsmError::NoProcPrologue),
            Some(symbol) => match st.stack {
                None => Emitted::Panics,
                Some(stack) => emit_text(st, call_text(env, stack, symbol, named, arguments, result)),
            },
        },
    }
}

/// The code that takes the arguments of a procedure.
pub open spec fn emit_load_args(env: AsmEnv, st: EmitState, arguments: Seq<Node>) -> Emitted<EmitState> {
    match st.stack {
        None => Emitted::Panics,
        Some(stack) => emit_text(st, load_args_text(env, stack, st.callee_offset, arguments, 0, 0, 0, seq![])),
    }
}

/// The code that returns from a procedure and closes its frame.
pub open spec fn emit_return(env: AsmEnv, st: EmitState, result: Option<Node>) -> Emitted<EmitState> {
    let loaded = match result {
        None => Emitted::Done(seq![]),
        Some(r) => match st.stack {
            None => Emitted::Panics,
            Some(stack) => load_text(env, stack, 0, r),
        },
    };
    match loaded {
        Emitted::Done(t) => Emitted::Done(
            EmitState {
                text: st.text + t + bytes("\tldp x29, x30, [sp, ") + decimal(st.stack_size as nat)
                    + bytes("]\n") + bytes("\tadd sp, sp, ") + decimal(st.callee_offset as nat)
                    + bytes("\n") + bytes("\tret\n"),
                stack: None,
                ..st
            },
        ),
        Emitted::Failed(e) => Emitted::Failed(e),
        Emitted::Panics => Emitted::Panics,
    }
}

/// The code of one instruction.
pub open spec fn emit_op(env: AsmEnv, st: EmitState, op: IrV) -> Emitted<EmitState> {
    match op {
        IrOf::Store { dst, src } => emit_store(env, st, dst, src),
        IrOf::Unary { dst, src, una } => emit_unary(env, st, dst, src),
        IrOf::Bin { dst, lhs, rhs, bin } => emit_bin(env, st, dst, lhs, rhs, bin),
        IrOf::Label { label } => match node_label(env, label) {
            None => Emitted::Failed(AsmError::NoLabel),
            Some(l) => Emitted::Done(append(st, l + bytes(":\n"))),
        },
        IrOf::Jump { label } => match node_label(env, label) {
            None => Emitted::Failed(AsmError::NoJumpLabel),
            Some(l) => Emitted::Done(append(st, bytes("\tb ") + l + bytes("\n"))),
        },
        IrOf::JumpZero { label, arg } => emit_branch(env, st, label, arg, true),
        IrOf::JumpNotZero { label, arg } => emit_branch(env, st, label, arg, false),
        IrOf::Allocate { args } => emit_allocate(env, st, args),
        IrOf::Call { proc, arguments, result } => emit_call(env, st, proc, arguments, result),
        IrOf::LoadArguments { arguments } => emit_load_args(env, st, arguments),
        IrOf::ReturnAndDeallocate { result } => emit_return(env, st, result),
    }
}

/// Why code generation stopped: an error, or an input on which it panics.
pub enum Halt {
    Error(AsmError),
    Panic,
}

/// The stop `h` matched by the outcome `e` that gave no value.
pub open spec fn halted<T>(e: Emitted<T>, h: Halt) -> bool {
    match e {
        Emitted::Done(_) => false,
        Emitted::Failed(x) => h == Halt::Error(x),
        Emitted::Panics => h is Panic,
    }
}

/// The code `t` appended to `out`, or the failure of `t`, by the result `r`.
pub open spec fn appended(t: Emitted<Seq<u8>>, before: Seq<u8>, after: Seq<u8>, r: Result<(), Halt>) -> bool {
    match t {
        Emitted::Done(x) => r is Ok && after == before + x,
        _ => r matches Err(h) && halted(t, h),
    }
}

/// The operand of a node.
fn lookup_arg(env: &AsmEnv, n: Node) -> (r: Option<Arg>)
    ensures
        r == node_arg(*env, n),
{
    let mut i: usize = 0;
    while i < env.args.len()
        invariant
            0 <= i <= env.args@.len(),
            find_index(env.args@, n, i as int) == find_index(env.args@, n, 0),
        decreases env.args@.len() - i,
    {
        if env.args[i].0 == n {
            return Some(env.args[i].1);
        }
        i += 1;
    }
    None
}

/// The layout of a node.
fn lookup_layout(env: &AsmEnv, n: Node) -> (r: Option<Layout>)
    ensures
        r == node_layout(*env, n),
{
    let mut i: usize = 0;
    while i < env.layouts.len()
        invariant
            0 <= i <= env.layouts@.len(),
            find_index(env.layouts@, n, i as int) == find_index(env.layouts@, n, 0),
        decreases env.layouts@.len() - i,
    {
        if env.layouts[i].0 == n {
            return Some(env.layouts[i].1);
        }
        i += 1;
    }
    None
}

/// The assembly label of a node.
fn lookup_label(env: &AsmEnv, n: Node) -> (r: Option<&Vec<u8>>)
    ensures
        match r {
            Some(l) => node_label(*env, n) == Some(l@),
            None => node_label(*env, n) is None,
        },
{
    let mut i: usize = 0;
    while i < env.labels.len()
        invariant
            0 <= i <= env.labels@.len(),
            find_index(env.labels@, n, i as int) == find_index(env.labels@, n, 0),
        decreases env.labels@.len() - i,
    {
        if env.labels[i].0 == n {
            return Some(&env.labels[i].1);
        }
        i += 1;
    }
    None
}

/// What is known of a procedure.
fn lookup_proc(env: &AsmEnv, n: Node) -> (r: Option<&ProcInfo>)
    ensures
        match r {
            Some(p) => node_proc(*env, n) == Some(
                (
                    match p.prologue {
                        Some(l) => Some(l@),
                        None => None,
                    },
                    p.named,
                ),
            ),
            None => node_proc(*env, n) is None,
        },
{
    let mut i: usize = 0;
    while i < env.procs.len()
        invariant
            0 <= i <= env.procs@.len(),
            find_index(env.procs@, n, i as int) == find_index(env.procs@, n, 0),
        decreases env.procs@.len() - i,
    {
        if env.procs[i].0 == n {
            return Some(&env.procs[i].1);
        }
        i += 1;
    }
    None
}

/// The offset of the slot of variable `id`.
fn lookup_slot(stack: &Vec<(usize, usize)>, id: usize) -> (r: Option<usize>)
    ensures
        r == find(stack@, id),
{
    let mut i: usize = 0;
    while i < stack.len()
        invariant
            0 <= i <= stack@.len(),
            find_index(stack@, id, i as int) == find_index(stack@, id, 0),
        decreases stack@.len() - i,
    {
        if stack[i].0 == id {
            return Some(stack[i].1);
        }
        i += 1;
    }
    None
}

/// Appends the register `x<n>`.
fn push_reg(out: &mut Vec<u8>, n: u64)
    ensures
        final(out)@ == old(out)@ + reg(n as nat),
{
    let ghost o = out@;
    push_str(out, "x");
    push_decimal(out, n);
    assert(out@ =~= o + reg(n as nat));
}

/// Appends the code that loads the operand of `src` into `x<dst>`.
fn load(env: &AsmEnv, stack: &Vec<(usize, usize)>, out: &mut Vec<u8>, dst: u64, src: Node) -> (r: Result<(), Halt>)
    ensures
        appended(load_text(*env, stack@, dst as nat, src), old(out)@, final(out)@, r),
{
    reveal(load_text);
    let ghost o = out@;
    match lookup_arg(env, src) {
        None => Err(Halt::Error(AsmError::NoLoadSrcArg)),
        Some(Arg::Var(id)) => match lookup_slot(stack, id) {
            None => Err(Halt::Error(AsmError::VarUnallocated)),
            Some(off) => {
                push_str(out, "\tldr ");
                push_reg(out, dst);
                push_str(out, ", [x29, -");
                push_decimal(out, off as u64);
                push_str(out, "]\n");
                assert(out@ =~= o + (bytes("\tldr ") + reg(dst as nat) + bytes(", [x29, -") + decimal(off as nat) + bytes("]\n")));
                Ok(())
            },
        },
        Some(Arg::Lit(id)) => {
            if id >= env.literals.len() {
                return Err(Halt::Panic);
            }
            match &env.literals[id] {
                LiteralOf::Str(_) => match lookup_label(env, src) {
                    None => Err(Halt::Error(AsmError::NoStrLabel)),
                    Some(l) => {
                        push_str(out, "\tadrp ");
                        push_reg(out, dst);
                        push_str(out, ", ");
                        push_bytes(out, l);
                        push_str(out, "@PAGE\n");
                        push_str(out, "\tadd ");
                        push_reg(out, dst);
                        push_str(out, ", ");
                        push_reg(out, dst);
                        push_str(out, ", ");
                        push_bytes(out, l);
                        push_str(out, "@PAGEOFF\n");
                        assert(out@ =~= o + (bytes("\tadrp ") + reg(dst as nat) + bytes(", ") + l@ + bytes("@PAGE\n")
                            + bytes("\tadd ") + reg(dst as nat) + bytes(", ") + reg(dst as nat) + bytes(", ") + l@
                            + bytes("@PAGEOFF\n")));
                        Ok(())
                    },
                },
                LiteralOf::Integer(n) => {
                    if *n < 4096 {
                        push_str(out, "\tmov ");
                        push_reg(out, dst);
                        push_str(out, ", ");
                        push_decimal(out, *n);
                        push_str(out, "\n");
                        assert(out@ =~= o + (bytes("\tmov ") + reg(dst as nat) + bytes(", ") + decimal(*n as nat) + bytes("\n")));
                    } else {
                        push_str(out, "\tldr ");
                        push_reg(out, dst);
                        push_str(out, ", =");
                        push_decimal(out, *n);
                        push_str(out, "\n");
                        assert(out@ =~= o + (bytes("\tldr ") + reg(dst as nat) + bytes(", =") + decimal(*n as nat) + bytes("\n")));
                    }
                    Ok(())
                },
            }
        },
    }
}

/// Appends the code that stores `x<src>` into the slot of `dst`.
fn store_reg(env: &AsmEnv, stack: &Vec<(usize, usize)>, out: &mut Vec<u8>, dst: Node, src: u64) -> (r: Result<(), Halt>)
    ensures
        appended(store_reg_text(*env, stack@, dst, src as nat), old(out)@, final(out)@, r),
{
    reveal(store_reg_text);
    let ghost o = out@;
    match lookup_arg(env, dst) {
        None => Err(Halt::Error(AsmError::NoStoreDstArg(dst))),
        Some(Arg::Var(id)) => match lookup_slot(stack, id) {
            None => Err(Halt::Error(AsmError::VarUnallocated)),
            Some(off) => {
                push_str(out, "\tstr ");
                push_reg(out, src);
                push_str(out, ", [x29, -");
                push_decimal(out, off as u64);
                push_str(out, "]\n");
                assert(out@ =~= o + (bytes("\tstr ") + reg(src as nat) + bytes(", [x29, -") + decimal(off as nat) + bytes("]\n")));
                Ok(())
            },
        },
        Some(Arg::Lit(_)) => Err(Halt::Error(AsmError::StoreIntoNonVar)),
    }
}

/// Appends the code of a binary operation on `x10` and `x11` into `x9`.
fn push_bin(out: &mut Vec<u8>, bin: IrBinOp)
    ensures
        final(out)@ == old(out)@ + bin_text(bin),
{
    let ghost o = out@;
    let arith = match bin {
        IrBinOp::Add => Some("add"),
        IrBinOp::Sub => Some("sub"),
        IrBinOp::Mul => Some("mul"),
        IrBinOp::Div => Some("udiv"),
        IrBinOp::BitAnd => Some("and"),
        IrBinOp::BitOr => Some("orr"),
        IrBinOp::Xor => Some("eor"),
        IrBinOp::Shr => Some("lsr"),
        IrBinOp::Shl => Some("lsl"),
        _ => None,
    };
    let cond = match bin {
        IrBinOp::Eq => Some("eq"),
        IrBinOp::Ne => Some("ne"),
        IrBinOp::Gt => Some("gt"),
        IrBinOp::Ge => Some("ge"),
        IrBinOp::Lt => Some("lt"),
        IrBinOp::Le => Some("le"),
        _ => None,
    };
    match arith {
        Some(op) => {
            push_str(out, "\t");
            push_str(out, op);
            push_str(out, " x9, x10, x11\n");
            assert(out@ =~= o + (bytes("\t") + bytes(op) + bytes(" x9, x10, x11\n")));
        },
        None => match cond {
            Some(c) => {
                push_str(out, "\tcmp x10, x11\n");
                push_str(out, "\tcset x9, ");
                push_str(out, c);
                push_str(out, "\n");
                assert(out@ =~= o + (bytes("\tcmp x10, x11\n") + bytes("\tcset x9, ") + bytes(c) + bytes("\n")));
            },
            None => {
                push_str(out, "\tudiv x9, x10, x11\n");
                push_str(out, "\tmsub x9, x9, x11, x10\n");
                assert(out@ =~= o + (bytes("\tudiv x9, x10, x11\n") + bytes("\tmsub x9, x9, x11, x10\n")));
            },
        },
    }
}

/// `x` rounded up to a multiple of `m`, or `None` where that panics.
fn next_multiple_exec(x: usize, m: usize) -> (r: Option<usize>)
    ensures
        r == next_multiple(x, m),
{
    if m == 0 {
        None
    } else {
        checked_round_up(x, m)
    }
}

/// The stack slots of the variables among `args`.
fn frame_slots(env: &AsmEnv, args: &Vec<Node>) -> (r: Result<(Vec<(usize, usize)>, usize), Halt>)
    ensures
        match alloc_slots(*env, args@, 0, seq![], 8) {
            Emitted::Done((slots, offset)) => r matches Ok((v, o)) && v@ == slots && o == offset,
            other => r matches Err(h) && halted(other, h),
        },
{
    let mut slots: Vec<(usize, usize)> = Vec::new();
    let mut offset: usize = 8;
    let mut i: usize = 0;
    while i < args.len()
        invariant
            0 <= i <= args@.len(),
            alloc_slots(*env, args@, i as int, slots@, offset) == alloc_slots(*env, args@, 0, seq![], 8),
        decreases args@.len() - i,
    {
        let n = args[i];
        match lookup_arg(env, n) {
            None => {
                return Err(Halt::Error(AsmError::NoAllocateArg));
            },
            Some(Arg::Lit(_)) => {
                return Err(Halt::Error(AsmError::AllocateNonVar));
            },
            Some(Arg::Var(index)) => {
                if lookup_slot(&slots, index).is_none() {
                    let layout = match lookup_layout(env, n) {
                        None => {
                            return Err(Halt::Error(AsmError::NoAllocateLayout(n)));
                        },
                        Some(l) => l,
                    };
                    let at = match next_multiple_exec(offset, layout.align) {
                        None => {
                            return Err(Halt::Panic);
                        },
                        Some(at) => at,
                    };
                    if at > usize::MAX - layout.size {
                        return Err(Halt::Panic);
                    }
                    slots.push((index, at));
                    offset = at + layout.size;
                }
            },
        }
        i += 1;
    }
    Ok((slots, offset))
}

/// The code that passes the arguments of a call, and the bytes of stack
/// the stacked ones take.
fn call_args(env: &AsmEnv, stack: &Vec<(usize, usize)>, named: usize, args: &Vec<Node>) -> (r: Result<
    (Vec<u8>, usize),
    Halt,
>)
    ensures
        match call_args_text(*env, stack@, named, args@, 0, 0, 0, seq![]) {
            Emitted::Done((t, nsaa)) => r matches Ok((v, n)) && v@ == t && n == nsaa,
            other => r matches Err(h) && halted(other, h),
        },
{
    let mut t: Vec<u8> = Vec::new();
    let mut ngrn: usize = 0;
    let mut nsaa: usize = 0;
    let mut i: usize = 0;
    while i < args.len()
        invariant
            0 <= i <= args@.len(),
            ngrn <= 8,
            call_args_text(*env, stack@, named, args@, i as int, ngrn as nat, nsaa, t@)
                == call_args_text(*env, stack@, named, args@, 0, 0, 0, seq![]),
        decreases args@.len() - i,
    {
        let n = args[i];
        let layout = match lookup_layout(env, n) {
            None => {
                return Err(Halt::Error(AsmError::NoCallArgLayout));
            },
            Some(l) => l,
        };
        let g0: usize = if i >= named {
            8
        } else {
            ngrn
        };
        if !layout.composite && layout.size <= 8 && g0 < 8 {
            load(env, stack, &mut t, g0 as u64, n)?;
            ngrn = g0 + 1;
        } else {
            let g1: usize = if layout.align == 16 {
                if g0 % 2 == 0 {
                    g0
                } else {
                    g0 + 1
                }
            } else {
                g0
            };
            let words = layout.size / 8 + if layout.size % 8 == 0 {
                0
            } else {
                1
            };
            if layout.composite && words <= 8 - g1 {
                return Err(Halt::Panic);
            }
            let align = if layout.align >= 8 {
                layout.align
            } else {
                8
            };
            let at = match next_multiple_exec(nsaa, align) {
                None => {
                    return Err(Halt::Panic);
                },
                Some(at) => at,
            };
            if layout.composite || layout.size > 8 {
                return Err(Halt::Panic);
            }
            let ghost before = t@;
            load(env, stack, &mut t, 9, n)?;
            if at > usize::MAX - 8 {
                return Err(Halt::Panic);
            }
            let ghost mid = t@;
            push_str(&mut t, "\tstr x9, [sp, ");
            push_decimal(&mut t, at as u64);
            push_str(&mut t, "]\n");
            assert(t@ =~= mid + bytes("\tstr x9, [sp, ") + decimal(at as nat) + bytes("]\n"));
            nsaa = at + 8;
            ngrn = 8;
        }
        i += 1;
    }
    Ok((t, nsaa))
}

/// The code that takes the arguments of a procedure into their slots.
fn load_args(env: &AsmEnv, stack: &Vec<(usize, usize)>, offset: usize, args: &Vec<Node>) -> (r: Result<
    Vec<u8>,
    Halt,
>)
    ensures
        match load_args_text(*env, stack@, offset, args@, 0, 0, 0, seq![]) {
            Emitted::Done(t) => r matches Ok(v) && v@ == t,
            other => r matches Err(h) && halted(other, h),
        },
{
    let mut t: Vec<u8> = Vec::new();
    let mut ngrn: usize = 0;
    let mut nsaa: usize = 0;
    let mut i: usize = 0;
    while i < args.len()
        invariant
            0 <= i <= args@.len(),
            ngrn <= 8,
            load_args_text(*env, stack@, offset, args@, i as int, ngrn as nat, nsaa, t@)
                == load_args_text(*env, stack@, offset, args@, 0, 0, 0, seq![]),
        decreases args@.len() - i,
    {
        let n = args[i];
        let layout = match lookup_layout(env, n) {
            None => {
                return Err(Halt::Error(AsmError::NoLoadArgsLayout));
            },
            Some(l) => l,
        };
        if !layout.composite && layout.size <= 8 && ngrn < 8 {
            store_reg(env, stack, &mut t, n, ngrn as u64)?;
            ngrn = ngrn + 1;
        } else {
            let align = if layout.align >= 8 {
                layout.align
            } else {
                8
            };
            let at = match next_multiple_exec(nsaa, align) {
                None => {
                    return Err(Halt::Panic);
                },
                Some(at) => at,
            };
            if layout.size > 8 || at > usize::MAX - offset || at > usize::MAX - 8 {
                return Err(Halt::Panic);
            }
            let ghost before = t@;
            push_str(&mut t, "\tldr x9, [sp, ");
            push_decimal(&mut t, (at + offset) as u64);
            push_str(&mut t, "]\n");
            assert(t@ =~= before + bytes("\tldr x9, [sp, ") + decimal((at + offset) as nat) + bytes("]\n"));
            store_reg(env, stack, &mut t, n, 9)?;
            nsaa = at + 8;
            ngrn = 8;
        }
        i += 1;
    }
    Ok(t)
}

/// Appends the code that keeps the result of a call.
fn call_result(env: &AsmEnv, stack: &Vec<(usize, usize)>, out: &mut Vec<u8>, result: Option<Node>) -> (r: Result<(), Halt>)
    ensures
        appended(call_result_text(*env, stack@, result), old(out)@, final(out)@, r),
{
    match result {
        None => {
            assert(out@ =~= old(out)@ + seq![]);
            Ok(())
        },
        Some(n) => match lookup_layout(env, n) {
            None => Err(Halt::Error(AsmError::NoCallReturnLayout)),
            Some(layout) => {
                if layout.composite || layout.size != 8 || layout.align != 8 {
                    return Err(Halt::Panic);
                }
                store_reg(env, stack, out, n, 0)
            },
        },
    }
}

/// Appends the code of a call.
#[verifier::rlimit(50)]
fn call(
    env: &AsmEnv,
    stack: &Vec<(usize, usize)>,
    out: &mut Vec<u8>,
    symbol: &Vec<u8>,
    named: usize,
    args: &Vec<Node>,
    result: Option<Node>,
) -> (r: Result<(), Halt>)
    ensures
        appended(call_text(*env, stack@, symbol@, named, args@, result), old(out)@, final(out)@, r),
{
    let ghost o = out@;
    let (t, nsaa) = call_args(env, stack, named, args)?;
    let size = match next_multiple_exec(nsaa, 16) {
        None => {
            return Err(Halt::Panic);
        },
        Some(size) => size,
    };
    if size > 0 {
        push_str(out, "\tsub sp, sp, ");
        push_decimal(out, size as u64);
        push_str(out, "\n");
    }
    let ghost o1 = out@;
    push_bytes(out, &t);
    push_str(out, "\tbl ");
    push_bytes(out, symbol);
    push_str(out, "\n");
    let ghost o2 = out@;
    if size > 0 {
        push_str(out, "\tadd sp, sp, ");
        push_decimal(out, size as u64);
        push_str(out, "\n");
    }
    let ghost o3 = out@;
    proof {
        let sub = if size > 0 {
            bytes("\tsub sp, sp, ") + decimal(size as nat) + bytes("\n")
        } else {
            seq![]
        };
        let add = if size > 0 {
            bytes("\tadd sp, sp, ") + decimal(size as nat) + bytes("\n")
        } else {
            seq![]
        };
        assert(o1 =~= o + sub);
        assert(o2 =~= o1 + t@ + bytes("\tbl ") + symbol@ + bytes("\n"));
        assert(o3 =~= o2 + add);
        assert(o3 =~= o + (sub + t@ + bytes("\tbl ") + symbol@ + bytes("\n") + add));
    }
    let res = call_result(env, stack, out, result);
    proof {
        let piece = (if size > 0 {
            bytes("\tsub sp, sp, ") + decimal(size as nat) + bytes("\n")
        } else {
            seq![]
        }) + t@ + bytes("\tbl ") + symbol@ + bytes("\n") + (if size > 0 {
            bytes("\tadd sp, sp, ") + decimal(size as nat) + bytes("\n")
        } else {
            seq![]
        });
        assert(o3 == o + piece);
        match call_result_text(*env, stack@, result) {
            Emitted::Done(x) => {
                assert(out@ =~= o + (piece + x));
            },
            _ => {},
        }
    }
    res
}

/// The state of code generation as it runs.
pub struct Emitter {
    pub text: Vec<u8>,
    pub stack: Option<Vec<(usize, usize)>>,
    pub stack_size: usize,
    pub callee_offset: usize,
}

impl Emitter {
    pub open spec fn state(&self) -> EmitState {
        EmitState {
            text: self.text@,
            stack: match self.stack {
                Some(v) => Some(v@),
                None => None,
            },
            stack_size: self.stack_size,
            callee_offset: self.callee_offset,
        }
    }
}

/// The outcome `e` matched by the state `em` and the result `r`.
pub open spec fn stepped(e: Emitted<EmitState>, em: Emitter, r: Result<(), Halt>) -> bool {
    match e {
        Emitted::Done(st) => r is Ok && em.state() == st,
        _ => r matches Err(h) && halted(e, h),
    }
}

/// The code of a store.
fn step_store(env: &AsmEnv, em: &mut Emitter, dst: Node, src: Node) -> (r: Result<(), Halt>)
    ensures
        stepped(emit_store(*env, old(em).state(), dst, src), *final(em), r),
{
    let ghost o = em.text@;
    match &em.stack {
        None => Err(Halt::Panic),
        Some(stack) => {
            load(env, stack, &mut em.text, 9, src)?;
            let ghost m = em.text@;
            let res = store_reg(env, stack, &mut em.text, dst, 9);
            proof {
                if let (Emitted::Done(a), Emitted::Done(b)) = (
                    load_text(*env, stack@, 9, src),
                    store_reg_text(*env, stack@, dst, 9),
                ) {
                    assert(em.text@ =~= o + (a + b));
                }
            }
            res
        },
    }
}

/// The code of a negation.
fn step_unary(env: &AsmEnv, em: &mut Emitter, dst: Node, src: Node) -> (r: Result<(), Halt>)
    ensures
        stepped(emit_unary(*env, old(em).state(), dst, src), *final(em), r),
{
    let ghost o = em.text@;
    match &em.stack {
        None => Err(Halt::Panic),
        Some(stack) => {
            load(env, stack, &mut em.text, 9, src)?;
            push_str(&mut em.text, "\tmvn x9, x9\n");
            let ghost m = em.text@;
            let res = store_reg(env, stack, &mut em.text, dst, 9);
            proof {
                if let (Emitted::Done(a), Emitted::Done(b)) = (
                    load_text(*env, stack@, 9, src),
                    store_reg_text(*env, stack@, dst, 9),
                ) {
                    assert(em.text@ =~= o + (a + bytes("\tmvn x9, x9\n") + b));
                }
            }
            res
        },
    }
}

/// The code of a binary operation.
fn step_bin(env: &AsmEnv, em: &mut Emitter, dst: Node, lhs: Node, rhs: Node, bin: IrBinOp) -> (r: Result<(), Halt>)
    ensures
        stepped(emit_bin(*env, old(em).state(), dst, lhs, rhs, bin), *final(em), r),
{
    let ghost o = em.text@;
    match &em.stack {
        None => Err(Halt::Panic),
        Some(stack) => {
            load(env, stack, &mut em.text, 10, lhs)?;
            load(env, stack, &mut em.text, 11, rhs)?;
            push_bin(&mut em.text, bin);
            let res = store_reg(env, stack, &mut em.text, dst, 9);
            proof {
                if let (Emitted::Done(a), Emitted::Done(b), Emitted::Done(c)) = (
                    load_text(*env, stack@, 10, lhs),
                    load_text(*env, stack@, 11, rhs),
                    store_reg_text(*env, stack@, dst, 9),
                ) {
                    assert(em.text@ =~= o + (a + b + bin_text(bin) + c));
                }
            }
            res
        },
    }
}

/// The code of a label or a jump.
fn step_label(env: &AsmEnv, em: &mut Emitter, op: &Ir) -> (r: Result<(), Halt>)
    requires
        op is Label || op is Jump,
    ensures
        stepped(emit_op(*env, old(em).state(), op@), *final(em), r),
{
    let ghost o = em.text@;
    match op {
        IrOf::Label { label } => match lookup_label(env, *label) {
            None => Err(Halt::Error(AsmError::NoLabel)),
            Some(l) => {
                push_bytes(&mut em.text, l);
                push_str(&mut em.text, ":\n");
                assert(em.text@ =~= o + (l@ + bytes(":\n")));
                Ok(())
            },
        },
        IrOf::Jump { label } => match lookup_label(env, *label) {
            None => Err(Halt::Error(AsmError::NoJumpLabel)),
            Some(l) => {
                push_str(&mut em.text, "\tb ");
                push_bytes(&mut em.text, l);
                push_str(&mut em.text, "\n");
                assert(em.text@ =~= o + (bytes("\tb ") + l@ + bytes("\n")));
                Ok(())
            },
        },
        _ => Err(Halt::Panic),
    }
}

/// The code of a conditional jump.
fn step_branch(env: &AsmEnv, em: &mut Emitter, label: Node, arg: Node, zero: bool) -> (r: Result<(), Halt>)
    ensures
        stepped(emit_branch(*env, old(em).state(), label, arg, zero), *final(em), r),
{
    match lookup_label(env, label) {
        None => Err(Halt::Error(
            if zero {
                AsmError::NoJumpZeroLabel
            } else {
                AsmError::NoJumpNotZeroLabel
            },
        )),
        Some(l) => match &em.stack {
            None => Err(Halt::Panic),
            Some(stack) => {
                let ghost o = em.text@;
                load(env, stack, &mut em.text, 9, arg)?;
                let ghost m = em.text@;
                if zero {
                    push_str(&mut em.text, "\tcbz x9, ");
                } else {
                    push_str(&mut em.text, "\tcbnz x9, ");
                }
                push_bytes(&mut em.text, l);
                push_str(&mut em.text, "\n");
                let ghost tail = (if zero {
                    bytes("\tcbz x9, ")
                } else {
                    bytes("\tcbnz x9, ")
                }) + l@ + bytes("\n");
                assert(em.text@ =~= m + tail);
                proof {
                    if let Emitted::Done(a) = load_text(*env, stack@, 9, arg) {
                        assert(em.text@ =~= o + (a + tail));
                    }
                }
                Ok(())
            },
        },
    }
}

/// The code that opens the frame of a procedure.
fn step_allocate(env: &AsmEnv, em: &mut Emitter, args: &Vec<Node>) -> (r: Result<(), Halt>)
    ensures
        stepped(emit_allocate(*env, old(em).state(), args@), *final(em), r),
{
    let ghost o = em.text@;
    let (slots, offset) = frame_slots(env, args)?;
    let size = match next_multiple_exec(offset, 16) {
        None => {
            return Err(Halt::Panic);
        },
        Some(size) => size,
    };
    if size > usize::MAX - 16 {
        return Err(Halt::Panic);
    }
    let callee = size + 16;
    push_str(&mut em.text, "\tsub sp, sp, ");
    push_decimal(&mut em.text, callee as u64);
    push_str(&mut em.text, "\n");
    push_str(&mut em.text, "\tstp x29, x30, [sp, ");
    push_decimal(&mut em.text, size as u64);
    push_str(&mut em.text, "]\n");
    push_str(&mut em.text, "\tadd x29, sp, ");
    push_decimal(&mut em.text, size as u64);
    push_str(&mut em.text, "\n");
    assert(em.text@ =~= o + bytes("\tsub sp, sp, ") + decimal(callee as nat) + bytes("\n")
        + bytes("\tstp x29, x30, [sp, ") + decimal(size as nat) + bytes("]\n")
        + bytes("\tadd x29, sp, ") + decimal(size as nat) + bytes("\n"));
    em.stack = Some(slots);
    em.stack_size = size;
    em.callee_offset = callee;
    Ok(())
}

/// The code of a call.
fn step_call(env: &AsmEnv, em: &mut Emitter, proc: Node, arguments: &Vec<Node>, result: Option<Node>) -> (r: Result<(), Halt>)
    ensures
        stepped(emit_call(*env, old(em).state(), proc, arguments@, result), *final(em), r),
{
    match lookup_proc(env, proc) {
        None => Err(Halt::Error(AsmError::NoCallProc)),
        Some(p) => match &p.prologue {
            None => Err(Halt::Error(AsmError::NoProcPrologue)),
            Some(symbol) => match &em.stack {
                None => Err(Halt::Panic),
                Some(stack) => call(env, stack, &mut em.text, symbol, p.named, arguments, result),
            },
        },
    }
}

/// The code that takes the arguments of a procedure.
fn step_load_args(env: &AsmEnv, em: &mut Emitter, arguments: &Vec<Node>) -> (r: Result<(), Halt>)
    ensures
        stepped(emit_load_args(*env, old(em).state(), arguments@), *final(em), r),
{
    match &em.stack {
        None => Err(Halt::Panic),
        Some(stack) => {
            let t = load_args(env, stack, em.callee_offset, arguments)?;
            push_bytes(&mut em.text, &t);
            Ok(())
        },
    }
}

/// The code that returns from a procedure and closes its frame.
fn step_return(env: &AsmEnv, em: &mut Emitter, result: Option<Node>) -> (r: Result<(), Halt>)
    ensures
        stepped(emit_return(*env, old(em).state(), result), *final(em), r),
{
    let ghost o = em.text@;
    match result {
        None => {},
        Some(n) => match &em.stack {
            None => {
                return Err(Halt::Panic);
            },
            Some(stack) => {
                load(env, stack, &mut em.text, 0, n)?;
            },
        },
    }
    let ghost m = em.text@;
    push_str(&mut em.text, "\tldp x29, x30, [sp, ");
    push_decimal(&mut em.text, em.stack_size as u64);
    push_str(&mut em.text, "]\n");
    push_str(&mut em.text, "\tadd sp, sp, ");
    push_decimal(&mut em.text, em.callee_offset as u64);
    push_str(&mut em.text, "\n");
    push_str(&mut em.text, "\tret\n");
    assert(em.text@ =~= m + bytes("\tldp x29, x30, [sp, ") + decimal(em.stack_size as nat)
        + bytes("]\n") + bytes("\tadd sp, sp, ") + decimal(em.callee_offset as nat) + bytes("\n")
        + bytes("\tret\n"));
    proof {
        if result is None {
            assert(m =~= o + seq![]);
        }
    }
    em.stack = None;
    Ok(())
}

/// Appends the code of one instruction.
fn step(env: &AsmEnv, em: &mut Emitter, op: &Ir) -> (r: Result<(), Halt>)
    ensures
        stepped(emit_op(*env, old(em).state(), op@), *final(em), r),
{
    match op {
        IrOf::Store { dst, src } => step_store(env, em, *dst, *src),
        IrOf::Unary { dst, src, .. } => step_unary(env, em, *dst, *src),
        IrOf::Bin { dst, lhs, rhs, bin } => step_bin(env, em, *dst, *lhs, *rhs, *bin),
        IrOf::Label { .. } | IrOf::Jump { .. } => step_label(env, em, op),
        IrOf::JumpZero { label, arg } => step_branch(env, em, *label, *arg, true),
        IrOf::JumpNotZero { label, arg } => step_branch(env, em, *label, *arg, false),
        IrOf::Allocate { args } => step_allocate(env, em, args),
        IrOf::Call { proc, arguments, result } => step_call(env, em, *proc, arguments, *result),
        IrOf::LoadArguments { arguments } => step_load_args(env, em, arguments),
        IrOf::ReturnAndDeallocate { result } => step_return(env, em, *result),
    }
}

/// The code of the instructions from the `i`-th on.
pub open spec fn emit_from(env: AsmEnv, st: EmitState, prog: Seq<IrV>, i: int) -> Emitted<EmitState>
    decreases prog.len() - i,
{
    if i < 0 || i >= prog.len() {
        Emitted::Done(st)
    } else {
        match emit_op(env, st, prog[i]) {
            Emitted::Done(st2) => emit_from(env, st2, prog, i + 1),
            other => other,
        }
    }
}

/// The start of every program: the entry point calls `_main`, then exits.
pub open spec fn entry_text() -> Seq<u8> {
    bytes(".global _start\n") + bytes("_start:\n") + bytes("\tbl _main\n") + bytes("\tb _exit\n")
}

/// The assembly text of a program: the entry point, the code of each
/// instruction, and the data section.
pub open spec fn spec_emit(env: AsmEnv, prog: Seq<IrV>, data: Seq<u8>) -> Emitted<Seq<u8>> {
    match emit_from(
        env,
        EmitState { text: entry_text(), stack: None, stack_size: 0, callee_offset: 0 },
        prog,
        0,
    ) {
        Emitted::Done(st) => Emitted::Done(st.text + data),
        Emitted::Failed(e) => Emitted::Failed(e),
        Emitted::Panics => Emitted::Panics,
    }
}

/// The values of a list of instructions.
pub open spec fn prog_v(prog: Seq<Ir>) -> Seq<IrV> {
    prog.map_values(|i: Ir| i@)
}

/// The assembly text of a program: the entry point, the code of each
/// instruction in turn, and the data section `data`; the error of the first
/// instruction that lacks something, or `None` where generation panics.
pub fn try_emit(env: &AsmEnv, prog: &[Ir], data: &Vec<u8>) -> (r: Option<Result<Vec<u8>, AsmError>>)
    ensures
        match spec_emit(*env, prog_v(prog@), data@) {
            Emitted::Done(t) => r matches Some(Ok(v)) && v@ == t,
            Emitted::Failed(e) => r == Some(Err::<Vec<u8>, AsmError>(e)),
            Emitted::Panics => r is None,
        },
{
    let ghost pv = prog_v(prog@);
    let mut em = Emitter { text: Vec::new(), stack: None, stack_size: 0, callee_offset: 0 };
    push_str(&mut em.text, ".global _start\n");
    push_str(&mut em.text, "_start:\n");
    push_str(&mut em.text, "\tbl _main\n");
    push_str(&mut em.text, "\tb _exit\n");
    assert(em.text@ =~= entry_text());
    let mut i: usize = 0;
    while i < prog.len()
        invariant
            pv == prog_v(prog@),
            0 <= i <= prog@.len(),
            emit_from(*env, em.state(), pv, i as int) == emit_from(
                *env,
                EmitState { text: entry_text(), stack: None, stack_size: 0, callee_offset: 0 },
                pv,
                0,
            ),
        decreases prog@.len() - i,
    {
        assert(pv[i as int] == prog@[i as int]@);
        match step(env, &mut em, &prog[i]) {
            Ok(()) => {},
            Err(Halt::Error(e)) => {
                return Some(Err(e));
            },
            Err(Halt::Panic) => {
                return None;
            },
        }
        i += 1;
    }
    push_bytes(&mut em.text, data);
    Some(Ok(em.text))
}

/// The code of each node that has code, by its handle.
pub type IrTable = Vec<(Node, Vec<Item>)>;

/// The entries of the code of node `n`.
pub open spec fn sub_items(table: Seq<(Node, Vec<Item>)>, n: Node) -> Option<Seq<ItemV>> {
    match find(table, n) {
        Some(v) => Some(items_v(v@)),
        None => None,
    }
}

/// The instructions of `items` in order, the code of a sub-node in its
/// place (nothing for a node without code), descending at most `fuel`
/// times; `None` where that runs out, which only a node whose code holds
/// itself, at some depth, can make happen.
pub open spec fn leaves(table: Seq<(Node, Vec<Item>)>, items: Seq<ItemV>, fuel: nat) -> Option<Seq<IrV>>
    decreases fuel, items.len(),
{
    if items.len() == 0 {
        Some(seq![])
    } else {
        match leaves(table, items.drop_last(), fuel) {
            None => None,
            Some(front) => match items.last() {
                ItemOf::Op(op) => Some(front.push(op)),
                ItemOf::Sub(n) => match sub_items(table, n) {
                    None => Some(front),
                    Some(sub) => if fuel == 0 {
                        None
                    } else {
                        match leaves(table, sub, (fuel - 1) as nat) {
                            None => None,
                            Some(t) => Some(front + t),
                        }
                    },
                },
            },
        }
    }
}

/// The program: the instructions of each procedure in turn, from the
/// `i`-th on.
pub open spec fn collect_from(table: Seq<(Node, Vec<Item>)>, procs: Seq<Seq<ItemV>>, i: int) -> Option<
    Seq<IrV>,
>
    decreases procs.len() - i,
{
    if i < 0 || i >= procs.len() {
        Some(seq![])
    } else {
        match leaves(table, procs[i], table.len()) {
            None => None,
            Some(t) => match collect_from(table, procs, i + 1) {
                None => None,
                Some(rest) => Some(t + rest),
            },
        }
    }
}

/// A copy of an instruction.
fn copy_ir(op: &Ir) -> (r: Ir)
    ensures
        r@ == op@,
{
    match op {
        IrOf::Store { dst, src } => IrOf::Store { dst: *dst, src: *src },
        IrOf::Unary { dst, src, una } => IrOf::Unary { dst: *dst, src: *src, una: *una },
        IrOf::Bin { dst, lhs, rhs, bin } => IrOf::Bin { dst: *dst, lhs: *lhs, rhs: *rhs, bin: *bin },
        IrOf::Label { label } => IrOf::Label { label: *label },
        IrOf::Jump { label } => IrOf::Jump { label: *label },
        IrOf::JumpZero { label, arg } => IrOf::JumpZero { label: *label, arg: *arg },
        IrOf::JumpNotZero { label, arg } => IrOf::JumpNotZero { label: *label, arg: *arg },
        IrOf::Allocate { args } => IrOf::Allocate { args: copy_nodes(args) },
        IrOf::LoadArguments { arguments } => IrOf::LoadArguments { arguments: copy_nodes(arguments) },
        IrOf::Call { proc, arguments, result } => IrOf::Call {
            proc: *proc,
            arguments: copy_nodes(arguments),
            result: *result,
        },
        IrOf::ReturnAndDeallocate { result } => IrOf::ReturnAndDeallocate { result: *result },
    }
}

/// The entries of the code of node `n`.
fn lookup_items(table: &IrTable, n: Node) -> (r: Option<&Vec<Item>>)
    ensures
        match r {
            Some(v) => sub_items(table@, n) == Some(items_v(v@)),
            None => sub_items(table@, n) is None,
        },
{
    let mut i: usize = 0;
    while i < table.len()
        invariant
            0 <= i <= table@.len(),
            find_index(table@, n, i as int) == find_index(table@, n, 0),
        decreases table@.len() - i,
    {
        if table[i].0 == n {
            return Some(&table[i].1);
        }
        i += 1;
    }
    None
}

proof fn lemma_leaves_prefix(table: Seq<(Node, Vec<Item>)>, s: Seq<ItemV>, k: int, fuel: nat)
    requires
        0 <= k <= s.len(),
        leaves(table, s.take(k), fuel) is None,
    ensures
        leaves(table, s, fuel) is None,
    decreases s.len(),
{
    if k < s.len() {
        assert(s.drop_last().take(k) =~= s.take(k));
        lemma_leaves_prefix(table, s.drop_last(), k, fuel);
    } else {
        assert(s.take(k) =~= s);
    }
}

/// Appends the instructions of `items`; false where the descent runs out
/// of `fuel`.
fn push_leaves(table: &IrTable, items: &Vec<Item>, fuel: usize, out: &mut Vec<Ir>) -> (r: bool)
    ensures
        match leaves(table@, items_v(items@), fuel as nat) {
            Some(t) => r && prog_v(final(out)@) == prog_v(old(out)@) + t,
            None => !r,
        },
    decreases fuel, items@.len(),
{
    let ghost iv = items_v(items@);
    let ghost o = prog_v(out@);
    let mut i: usize = 0;
    assert(iv.take(0) =~= seq![]);
    assert(o + seq![] =~= o);
    while i < items.len()
        invariant
            iv == items_v(items@),
            0 <= i <= items@.len(),
            leaves(table@, iv.take(i as int), fuel as nat) == Some(prog_v(out@).skip(o.len() as int)),
            prog_v(out@) == o + prog_v(out@).skip(o.len() as int),
            o == prog_v(old(out)@),
        decreases items@.len() - i,
    {
        let ghost before = prog_v(out@);
        assert(iv.take(i + 1).drop_last() =~= iv.take(i as int));
        assert(iv.take(i + 1).last() == items@[i as int]@);
        match &items[i] {
            ItemOf::Op(op) => {
                out.push(copy_ir(op));
                assert(prog_v(out@) =~= before.push(op@));
                assert(prog_v(out@).skip(o.len() as int) =~= before.skip(o.len() as int).push(op@));
            },
            ItemOf::Sub(n) => match lookup_items(table, *n) {
                None => {},
                Some(sub) => {
                    if fuel == 0 {
                        proof {
                            lemma_leaves_prefix(table@, iv, i + 1, fuel as nat);
                        }
                        return false;
                    }
                    if !push_leaves(table, sub, fuel - 1, out) {
                        proof {
                            lemma_leaves_prefix(table@, iv, i + 1, fuel as nat);
                        }
                        return false;
                    }
                    assert(prog_v(out@).skip(o.len() as int) =~= before.skip(o.len() as int) + prog_v(out@).skip(before.len() as int));
                },
            },
        }
        i += 1;
    }
    assert(iv.take(items@.len() as int) =~= iv);
    true
}

/// The program of a source: the instructions of each procedure in turn,
/// each entry of a procedure's code in order and the code of a sub-node in
/// its place; `None` where a node's code holds itself at some depth, on
/// which the descent does not end.
pub fn collect_ir(table: &IrTable, procs: &Vec<Vec<Item>>) -> (r: Option<Vec<Ir>>)
    ensures
        match collect_from(table@, procs@.map_values(|p: Vec<Item>| items_v(p@)), 0) {
            Some(t) => r matches Some(v) && prog_v(v@) == t,
            None => r is None,
        },
{
    let ghost pv = procs@.map_values(|p: Vec<Item>| items_v(p@));
    let mut out: Vec<Ir> = Vec::new();
    let mut i: usize = 0;
    assert(prog_v(out@) =~= seq![]);
    while i < procs.len()
        invariant
            pv == procs@.map_values(|p: Vec<Item>| items_v(p@)),
            0 <= i <= procs@.len(),
            collect_from(table@, pv, 0) == match collect_from(table@, pv, i as int) {
                Some(rest) => Some(prog_v(out@) + rest),
                None => None,
            },
        decreases procs@.len() - i,
    {
        let ghost before = prog_v(out@);
        assert(pv[i as int] == items_v(procs@[i as int]@));
        if !push_leaves(table, &procs[i], table.len(), &mut out) {
            return None;
        }
        proof {
            if let Some(t) = leaves(table@, pv[i as int], table@.len()) {
                if let Some(rest) = collect_from(table@, pv, i + 1) {
                    assert(before + (t + rest) =~= prog_v(out@) + rest);
                }
            }
        }
        i += 1;
    }
    assert(prog_v(out@) + seq![] =~= prog_v(out@));
    Some(out)
}

} // verus!
