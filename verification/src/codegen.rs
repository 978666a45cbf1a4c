//! Code generation from the intermediate representation to AArch64
//! assembly text, following the AAPCS64 calling convention for integer
//! arguments.
use crate::ast::Layout;
use crate::ir::{checked_round_up, ir_v, irs_v, pairs_v, round_up, Arg, ArgOf, ArgV, Data, DataV, Ir, IrBinOpKind, IrV, StackSlot};
use crate::stage::emit::{branch_taken, compare_flags, condition_holds, lemma_mnemonics, machine_op};
use crate::text::{bytes, bytes_eq, copy_bytes, decimal, push_bytes, push_decimal, push_str};
use vstd::prelude::*;

verus! {

/// The labels given to static data so far, in the order they were given.
pub type DataMap = Seq<(DataV, Seq<u8>)>;

/// What code generation threads through the instructions: the labelled
/// static data, the stack slots of the current function and the offset of
/// the caller's stacked arguments.
pub struct AsmState {
    pub data: DataMap,
    pub stack: Option<Seq<StackSlot>>,
    pub callee_offset: nat,
}

/// The register `x<n>`.
pub open spec fn reg(n: nat) -> Seq<u8> {
    bytes("x") + decimal(n)
}

/// The label given to `d` among the entries from the `i`-th on, if any.
pub open spec fn lookup_data(map: DataMap, d: DataV, i: int) -> Option<Seq<u8>>
    decreases map.len() - i,
{
    if i < 0 || i >= map.len() {
        None
    } else if map[i].0 == d {
        Some(map[i].1)
    } else {
        lookup_data(map, d, i + 1)
    }
}

/// The label `d<n>` of the `n`-th datum.
pub open spec fn data_name(n: nat) -> Seq<u8> {
    bytes("d") + decimal(n)
}

/// The label of `d`: the one it has, or a new one numbered by how many
/// data were labelled before it.
pub open spec fn data_label(map: DataMap, d: DataV) -> (DataMap, Seq<u8>) {
    match lookup_data(map, d, 0) {
        Some(l) => (map, l),
        None => (map.push((d, data_name(map.len()))), data_name(map.len())),
    }
}

/// The offset of slot `i` below the frame pointer, or `None` where the
/// slot does not exist or the offset overflows.
pub open spec fn slot_offset(stack: Seq<StackSlot>, i: int) -> Option<nat> {
    if 0 <= i < stack.len() && stack[i].aligned_offset + 8 <= usize::MAX {
        Some((stack[i].aligned_offset + 8) as nat)
    } else {
        None
    }
}

/// Loads operand `src` into register `dst`, or `None` where that panics.
pub open spec fn load_code(map: DataMap, stack: Seq<StackSlot>, dst: nat, src: ArgV) -> Option<(DataMap, Seq<u8>)> {
    match src {
        ArgOf::Var(i) => match slot_offset(stack, i as int) {
            Some(off) => Some(
                (map, bytes("\tldr ") + reg(dst) + bytes(", [x29, -") + decimal(off) + bytes("]\n")),
            ),
            None => None,
        },
        ArgOf::Lit(n) => if n < 4096 {
            Some((map, bytes("\tmov ") + reg(dst) + bytes(", ") + decimal(n as nat) + bytes("\n")))
        } else {
            Some((map, bytes("\tldr ") + reg(dst) + bytes(", =") + decimal(n as nat) + bytes("\n")))
        },
        ArgOf::Data(d) => {
            let (map1, l) = data_label(map, d);
            Some(
                (
                    map1,
                    bytes("\tadrp ") + reg(dst) + bytes(", ") + l + bytes("@PAGE\n") + bytes("\tadd ")
                        + reg(dst) + bytes(", ") + reg(dst) + bytes(", ") + l + bytes("@PAGEOFF\n"),
                ),
            )
        },
    }
}

/// Stores register `src` into the slot `dst`; other operands panic.
pub open spec fn store_reg_code(stack: Seq<StackSlot>, dst: ArgV, src: nat) -> Option<Seq<u8>> {
    match dst {
        ArgOf::Var(i) => match slot_offset(stack, i as int) {
            Some(off) => Some(bytes("\tstr ") + reg(src) + bytes(", [x29, -") + decimal(off) + bytes("]\n")),
            None => None,
        },
        _ => None,
    }
}

/// Copies operand `src` into the slot `dst` through register `x9`.
pub open spec fn store_code(map: DataMap, stack: Seq<StackSlot>, dst: ArgV, src: ArgV) -> Option<(DataMap, Seq<u8>)> {
    match dst {
        ArgOf::Var(i) => match load_code(map, stack, 9, src) {
            Some((map1, t)) => match slot_offset(stack, i as int) {
                Some(off) => Some((map1, t + bytes("\tstr x9, [x29, -") + decimal(off) + bytes("]\n"))),
                None => None,
            },
            None => None,
        },
        _ => None,
    }
}

/// The mnemonic of an arithmetic or bitwise operator.
pub open spec fn arith_op(bin: IrBinOpKind) -> Option<Seq<u8>> {
    match bin {
        IrBinOpKind::Add => Some(bytes("add")),
        IrBinOpKind::Sub => Some(bytes("sub")),
        IrBinOpKind::Mul => Some(bytes("mul")),
        IrBinOpKind::Div => Some(bytes("udiv")),
        IrBinOpKind::BitAnd => Some(bytes("and")),
        IrBinOpKind::BitOr => Some(bytes("orr")),
        IrBinOpKind::Xor => Some(bytes("eor")),
        IrBinOpKind::Shr => Some(bytes("lsr")),
        IrBinOpKind::Shl => Some(bytes("lsl")),
        _ => None,
    }
}

/// The condition code of a comparison.
pub open spec fn cond_code(bin: IrBinOpKind) -> Option<Seq<u8>> {
    match bin {
        IrBinOpKind::Eq => Some(bytes("eq")),
        IrBinOpKind::Ne => Some(bytes("ne")),
        IrBinOpKind::Gt => Some(bytes("gt")),
        IrBinOpKind::Ge => Some(bytes("ge")),
        IrBinOpKind::Lt => Some(bytes("lt")),
        IrBinOpKind::Le => Some(bytes("le")),
        _ => None,
    }
}

/// The instructions chosen for each operator compute it: on 64-bit words,
/// the arithmetic ones modulo two to the 64, division unsigned, the shifts
/// by the amount modulo 64, and the remainder by a division and a
/// multiply-subtract; a comparison sets `x9` to one exactly when it holds
/// between the registers read as signed 64-bit values.
pub proof fn law_instruction_meaning(bin: IrBinOpKind, a: u64, b: u64, x: i64, y: i64)
    ensures
        ({
            let m = 0x1_0000_0000_0000_0000int;
            match bin {
                IrBinOpKind::Add => arith_op(bin) matches Some(mn) && machine_op(mn, a, b) == Some((a + b) % m),
                IrBinOpKind::Sub => arith_op(bin) matches Some(mn) && machine_op(mn, a, b) == Some((a - b) % m),
                IrBinOpKind::Mul => arith_op(bin) matches Some(mn) && machine_op(mn, a, b) == Some((a * b) % m),
                IrBinOpKind::Div => arith_op(bin) matches Some(mn) && (b != 0 ==> machine_op(mn, a, b) == Some(
                    (a / b) as int,
                )),
                IrBinOpKind::BitAnd => arith_op(bin) matches Some(mn) && machine_op(mn, a, b) == Some(
                    (a & b) as int,
                ),
                IrBinOpKind::BitOr => arith_op(bin) matches Some(mn) && machine_op(mn, a, b) == Some(
                    (a | b) as int,
                ),
                IrBinOpKind::Xor => arith_op(bin) matches Some(mn) && machine_op(mn, a, b) == Some(
                    (a ^ b) as int,
                ),
                IrBinOpKind::Shr => arith_op(bin) matches Some(mn) && machine_op(mn, a, b) == Some(
                    (a >> ((b % 64) as u64)) as int,
                ),
                IrBinOpKind::Shl => arith_op(bin) matches Some(mn) && machine_op(mn, a, b) == Some(
                    (a << ((b % 64) as u64)) as int,
                ),
                IrBinOpKind::Mod => bin_text(bin) == bytes("\tudiv x9, x10, x11\n") + bytes(
                    "\tmsub x9, x9, x11, x10\n",
                ),
                _ => cond_code(bin) matches Some(c) && ({
                    let (n, z, v) = compare_flags(x, y);
                    condition_holds(c, n, z, v) <==> match bin {
                        IrBinOpKind::Eq => x == y,
                        IrBinOpKind::Ne => x != y,
                        IrBinOpKind::Gt => x > y,
                        IrBinOpKind::Ge => x >= y,
                        IrBinOpKind::Lt => x < y,
                        _ => x <= y,
                    }
                }),
            }
        }),
{
    lemma_mnemonics();
    crate::stage::emit::law_comparison_code(crate::stage::ir::IrBinOp::Gt, x, y);
    crate::stage::emit::law_comparison_code(crate::stage::ir::IrBinOp::Ge, x, y);
    crate::stage::emit::law_comparison_code(crate::stage::ir::IrBinOp::Lt, x, y);
    crate::stage::emit::law_comparison_code(crate::stage::ir::IrBinOp::Le, x, y);
    crate::stage::emit::law_comparison_code(crate::stage::ir::IrBinOp::Eq, x, y);
    crate::stage::emit::law_comparison_code(crate::stage::ir::IrBinOp::Ne, x, y);
}

/// The instructions that compute `x10 op x11` into `x9`.
pub open spec fn bin_text(bin: IrBinOpKind) -> Seq<u8> {
    match arith_op(bin) {
        Some(op) => bytes("\t") + op + bytes(" x9, x10, x11\n"),
        None => match cond_code(bin) {
            Some(c) => bytes("\tcmp x10, x11\n") + bytes("\tcset x9, ") + c + bytes("\n"),
            None => bytes("\tudiv x9, x10, x11\n") + bytes("\tmsub x9, x9, x11, x10\n"),
        },
    }
}

/// The alignment of a stacked argument: its own, but at least eight.
pub open spec fn stacked_align(layout: Layout) -> int {
    if layout.align >= 8 {
        layout.align as int
    } else {
        8
    }
}

/// Whether an argument goes in the next general register.
pub open spec fn in_register(layout: Layout, ngrn: nat) -> bool {
    !layout.composite && layout.size <= 8 && ngrn < 8
}

/// Whether a stacked argument takes one double word; others panic.
pub open spec fn one_word(layout: Layout) -> bool {
    layout.size <= 8
}

/// The code that passes the arguments of a call from the `i`-th on, given
/// the next general register `ngrn` and the next stacked argument offset
/// `nsaa`; with the final offset, or `None` where that panics.
#[verifier::opaque]
pub open spec fn call_args_code(
    map: DataMap,
    stack: Seq<StackSlot>,
    args: Seq<(ArgV, Layout)>,
    named: nat,
    i: int,
    ngrn: nat,
    nsaa: nat,
    acc: Seq<u8>,
) -> Option<(DataMap, nat, Seq<u8>)>
    decreases args.len() - i,
{
    if i < 0 || i >= args.len() {
        Some((map, nsaa, acc))
    } else {
        let (arg, layout) = args[i];
        let ngrn = if i >= named {
            8nat
        } else {
            ngrn
        };
        if in_register(layout, ngrn) {
            match load_code(map, stack, ngrn, arg) {
                Some((map1, t)) => call_args_code(map1, stack, args, named, i + 1, ngrn + 1, nsaa, acc + t),
                None => None,
            }
        } else {
            let at = round_up(nsaa as int, stacked_align(layout));
            if layout.composite || at + 8 > usize::MAX || !one_word(layout) {
                None
            } else {
                match load_code(map, stack, 9, arg) {
                    Some((map1, t)) => call_args_code(
                        map1,
                        stack,
                        args,
                        named,
                        i + 1,
                        8,
                        (at + 8) as nat,
                        acc + t + bytes("\tstr x9, [sp, ") + decimal(at as nat) + bytes("]\n"),
                    ),
                    None => None,
                }
            }
        }
    }
}

/// Whether a value is passed in one register.
pub open spec fn plain_word(layout: Layout) -> bool {
    !layout.composite && layout.size == 8 && layout.align == 8
}

/// Stores the result of a call from register `x0`.
pub open spec fn call_results_code(stack: Seq<StackSlot>, results: Seq<(ArgV, Layout)>) -> Option<Seq<u8>> {
    if results.len() > 1 {
        None
    } else if results.len() == 0 {
        Some(seq![])
    } else if !plain_word(results[0].1) {
        None
    } else {
        store_reg_code(stack, results[0].0, 0)
    }
}

/// The code that stores the arguments of the current function into their
/// slots, from the `i`-th on; `offset` is where the caller's stacked
/// arguments start above the stack pointer.
#[verifier::opaque]
pub open spec fn load_args_code(
    stack: Seq<StackSlot>,
    offset: nat,
    args: Seq<(ArgV, Layout)>,
    i: int,
    ngrn: nat,
    nsaa: nat,
    acc: Seq<u8>,
) -> Option<Seq<u8>>
    decreases args.len() - i,
{
    if i < 0 || i >= args.len() {
        Some(acc)
    } else {
        let (arg, layout) = args[i];
        if in_register(layout, ngrn) {
            match store_reg_code(stack, arg, ngrn) {
                Some(t) => load_args_code(stack, offset, args, i + 1, ngrn + 1, nsaa, acc + t),
                None => None,
            }
        } else {
            let at = round_up(nsaa as int, stacked_align(layout));
            if at + 8 > usize::MAX || !one_word(layout) || at + offset > usize::MAX {
                None
            } else {
                match store_reg_code(stack, arg, 9) {
                    Some(t) => load_args_code(
                        stack,
                        offset,
                        args,
                        i + 1,
                        8,
                        (at + 8) as nat,
                        acc + bytes("\tldr x9, [sp, ") + decimal((at + offset) as nat) + bytes("]\n") + t,
                    ),
                    None => None,
                }
            }
        }
    }
}

/// The frame size for `size` bytes of slots: rounded up to sixteen.
pub open spec fn frame(size: nat) -> int {
    round_up(size as int, 16)
}

/// The prologue of a function whose slots take a frame of `f` bytes.
pub open spec fn allocate_code(f: nat) -> Seq<u8> {
    bytes("\tsub sp, sp, ") + decimal(f + 16) + bytes("\n") + bytes("\tstp x29, x30, [sp, ") + decimal(f)
        + bytes("]\n") + bytes("\tadd x29, sp, ") + decimal(f) + bytes("\n")
}

/// The epilogue of a function whose slots took a frame of `f` bytes.
pub open spec fn epilogue_code(f: nat) -> Seq<u8> {
    bytes("\tldp x29, x30, [sp, ") + decimal(f) + bytes("]\n") + bytes("\tadd sp, sp, ") + decimal(f + 16)
        + bytes("\n") + bytes("\tret\n")
}

/// The code that returns at most one result in `x0` and frees a frame for
/// `deallocate` bytes of slots.
pub open spec fn return_code(
    map: DataMap,
    stack: Option<Seq<StackSlot>>,
    results: Seq<(ArgV, Layout)>,
    deallocate: nat,
) -> Option<(DataMap, Seq<u8>)> {
    let loaded = if results.len() > 1 {
        None
    } else if results.len() == 0 {
        Some((map, seq![]))
    } else if !plain_word(results[0].1) {
        None
    } else {
        match stack {
            Some(stack) => load_code(map, stack, 0, results[0].0),
            None => None,
        }
    };
    match loaded {
        None => None,
        Some((map1, t)) => if frame(deallocate) + 16 > usize::MAX {
            None
        } else {
            Some((map1, t + epilogue_code(frame(deallocate) as nat)))
        },
    }
}

/// The code of one instruction, or `None` where generation panics.
pub open spec fn op_code(st: AsmState, op: IrV) -> Option<(AsmState, Seq<u8>)> {
    match op {
        IrV::Label { label } => Some((st, label + bytes(":\n"))),
        IrV::Jump { label } => Some((st, bytes("\tb ") + label + bytes("\n"))),
        IrV::Allocate { size, slots } => if frame(size as nat) + 16 > usize::MAX {
            None
        } else {
            let f = frame(size as nat) as nat;
            Some((AsmState { stack: Some(slots), callee_offset: f + 16, ..st }, allocate_code(f)))
        },
        IrV::Return { results, deallocate } => match return_code(st.data, st.stack, results, deallocate as nat) {
            Some((map1, t)) => Some((AsmState { data: map1, stack: None, ..st }, t)),
            None => None,
        },
        _ => match st.stack {
            None => None,
            Some(stack) => match stack_op_code(st.data, st.callee_offset, stack, op) {
                Some((map1, t)) => Some((AsmState { data: map1, ..st }, t)),
                None => None,
            },
        },
    }
}

/// The stack that a call reserves for `nsaa` bytes of stacked arguments:
/// the code before and after it.
pub open spec fn reserve(s: nat) -> (Seq<u8>, Seq<u8>) {
    if s > 0 {
        (bytes("\tsub sp, sp, ") + decimal(s) + bytes("\n"), bytes("\tadd sp, sp, ") + decimal(s) + bytes("\n"))
    } else {
        (seq![], seq![])
    }
}

/// The code that complements the bits of `src` into the slot `dst`.
pub open spec fn unary_code(map: DataMap, stack: Seq<StackSlot>, dst: ArgV, src: ArgV) -> Option<(DataMap, Seq<u8>)> {
    match load_code(map, stack, 9, src) {
        Some((map1, t)) => match store_reg_code(stack, dst, 9) {
            Some(t2) => Some((map1, t + bytes("\tmvn x9, x9\n") + t2)),
            None => None,
        },
        None => None,
    }
}

/// The code that applies `bin` to `lhs` and `rhs` into the slot `dst`.
pub open spec fn bin_code(
    map: DataMap,
    stack: Seq<StackSlot>,
    dst: ArgV,
    lhs: ArgV,
    rhs: ArgV,
    bin: IrBinOpKind,
) -> Option<(DataMap, Seq<u8>)> {
    match load_code(map, stack, 10, lhs) {
        Some((map1, t1)) => match load_code(map1, stack, 11, rhs) {
            Some((map2, t2)) => match store_reg_code(stack, dst, 9) {
                Some(t3) => Some((map2, t1 + t2 + bin_text(bin) + t3)),
                None => None,
            },
            None => None,
        },
        None => None,
    }
}

/// The code that branches to `label` on `arg`, with the branch given.
pub open spec fn branch_code(map: DataMap, stack: Seq<StackSlot>, branch: Seq<u8>, label: Seq<u8>, arg: ArgV) -> Option<(DataMap, Seq<u8>)> {
    match load_code(map, stack, 9, arg) {
        Some((map1, t)) => Some((map1, t + branch + label + bytes("\n"))),
        None => None,
    }
}

/// The code of a call: its arguments, the branch and its result.
pub open spec fn call_code(
    map: DataMap,
    stack: Seq<StackSlot>,
    symbol: Seq<u8>,
    named: nat,
    arguments: Seq<(ArgV, Layout)>,
    results: Seq<(ArgV, Layout)>,
) -> Option<(DataMap, Seq<u8>)> {
    match call_args_code(map, stack, arguments, named, 0, 0, 0, seq![]) {
        None => None,
        Some((map1, nsaa, t)) => if round_up(nsaa as int, 16) > usize::MAX {
            None
        } else {
            let (pre, post) = reserve(round_up(nsaa as int, 16) as nat);
            match call_results_code(stack, results) {
                None => None,
                Some(t2) => Some((map1, pre + t + bytes("\tbl ") + symbol + bytes("\n") + post + t2)),
            }
        },
    }
}

/// The code of an instruction that needs the current stack slots.
pub open spec fn stack_op_code(map: DataMap, offset: nat, stack: Seq<StackSlot>, op: IrV) -> Option<(DataMap, Seq<u8>)> {
    match op {
        IrV::Store { dst, src } => store_code(map, stack, dst, src),
        IrV::Unary { dst, src, una } => unary_code(map, stack, dst, src),
        IrV::Bin { dst, lhs, rhs, bin } => bin_code(map, stack, dst, lhs, rhs, bin),
        IrV::JumpZero { label, arg } => branch_code(map, stack, bytes("\tcbz x9, "), label, arg),
        IrV::JumpNotZero { label, arg } => branch_code(map, stack, bytes("\tcbnz x9, "), label, arg),
        IrV::Call { symbol, named, arguments, results } => call_code(map, stack, symbol, named as nat, arguments, results),
        IrV::LoadArguments { arguments } => match load_args_code(stack, offset, arguments, 0, 0, 0, seq![]) {
            Some(t) => Some((map, t)),
            None => None,
        },
        _ => Some((map, seq![])),
    }
}

/// Rounding up to sixteen gives a multiple of sixteen, no less than what
/// was rounded.
proof fn lemma_round_up_sixteen(x: int)
    requires
        x >= 0,
    ensures
        round_up(x, 16) % 16 == 0,
        round_up(x, 16) >= x,
{
}

/// A prologue moves the stack pointer by a frame of a multiple of sixteen.
proof fn lemma_allocate_aligned(st: AsmState, size: usize, slots: Seq<StackSlot>)
    ensures
        op_code(st, IrV::Allocate { size, slots }) matches Some((_, t)) ==> exists|f: nat|
            #![auto]
            t == allocate_code(f) && f % 16 == 0 && f >= size,
{
    lemma_round_up_sixteen(size as int);
    if let Some((_, t)) = op_code(st, IrV::Allocate { size, slots }) {
        let f = frame(size as nat) as nat;
        assert(t == allocate_code(f));
    }
}

/// An epilogue moves the stack pointer by a frame of a multiple of sixteen.
proof fn lemma_return_aligned(st: AsmState, results: Seq<(ArgV, Layout)>, deallocate: usize)
    ensures
        op_code(st, IrV::Return { results, deallocate }) matches Some((_, t)) ==> exists|
            f: nat,
            pre: Seq<u8>,
        |
            #![auto]
            t == pre + epilogue_code(f) && f % 16 == 0 && f >= deallocate,
{
    lemma_round_up_sixteen(deallocate as int);
    if let Some((_, t)) = op_code(st, IrV::Return { results, deallocate }) {
        let f = frame(deallocate as nat) as nat;
        if let Some((_, t1)) = return_code(st.data, st.stack, results, deallocate as nat) {
            let loaded = if results.len() == 0 {
                seq![]
            } else {
                load_code(st.data, st.stack.unwrap(), 0, results[0].0).unwrap().1
            };
            assert(t1 == loaded + epilogue_code(f));
            assert(t == loaded + epilogue_code(f));
        }
    }
}

/// A call moves the stack pointer down and back up by its stacked
/// arguments rounded up to sixteen.
proof fn lemma_call_aligned(
    map: DataMap,
    stack: Seq<StackSlot>,
    symbol: Seq<u8>,
    named: nat,
    arguments: Seq<(ArgV, Layout)>,
    results: Seq<(ArgV, Layout)>,
)
    ensures
        call_code(map, stack, symbol, named, arguments, results) matches Some((_, t)) ==> exists|
            n: nat,
            call: Seq<u8>,
            after: Seq<u8>,
        |
            #![auto]
            t == reserve(n).0 + call + reserve(n).1 + after && n % 16 == 0,
{
    if let Some((_, t)) = call_code(map, stack, symbol, named, arguments, results) {
        if let Some((_, nsaa, t0)) = call_args_code(map, stack, arguments, named, 0, 0, 0, seq![]) {
            lemma_round_up_sixteen(nsaa as int);
            let n = round_up(nsaa as int, 16) as nat;
            let t2 = call_results_code(stack, results).unwrap();
            let call = t0 + bytes("\tbl ") + symbol + bytes("\n");
            assert(t =~= reserve(n).0 + call + reserve(n).1 + t2);
        }
    }
}

/// The generated code moves the stack pointer only by multiples of
/// sixteen: a function's prologue and its epilogue move it by its frame,
/// which holds its slots rounded up to sixteen, and sixteen more bytes
/// for the frame record; a call moves it down and back up by its stacked
/// arguments rounded up to sixteen.
pub proof fn law_stack_moves_by_sixteen(st: AsmState, op: IrV)
    ensures
        match op {
            IrV::Allocate { size, .. } => op_code(st, op) matches Some((_, t)) ==> exists|f: nat|
                #![auto]
                t == allocate_code(f) && f % 16 == 0 && f >= size,
            IrV::Return { deallocate, .. } => op_code(st, op) matches Some((_, t)) ==> exists|
                f: nat,
                pre: Seq<u8>,
            |
                #![auto]
                t == pre + epilogue_code(f) && f % 16 == 0 && f >= deallocate,
            IrV::Call { .. } => op_code(st, op) matches Some((_, t)) ==> exists|
                n: nat,
                call: Seq<u8>,
                after: Seq<u8>,
            |
                #![auto]
                t == reserve(n).0 + call + reserve(n).1 + after && n % 16 == 0,
            _ => true,
        },
{
    match op {
        IrV::Allocate { size, slots } => lemma_allocate_aligned(st, size, slots),
        IrV::Return { results, deallocate } => lemma_return_aligned(st, results, deallocate),
        IrV::Call { symbol, named, arguments, results } => {
            if let Some(stack) = st.stack {
                lemma_call_aligned(st.data, stack, symbol, named as nat, arguments, results);
                if let Some((_, t)) = op_code(st, op) {
                    assert(stack_op_code(st.data, st.callee_offset, stack, op) matches Some((_, t1))
                        && t1 == t);
                }
            }
        },
        _ => {},
    }
}

/// The branch text of a jump: on zero `cbz`, else `cbnz`, taken exactly
/// when the operand is zero or exactly when it is not.
proof fn lemma_branch_text(map: DataMap, stack: Seq<StackSlot>, label: Seq<u8>, arg: ArgV, zero: bool, v: u64)
    ensures
        branch_code(
            map,
            stack,
            if zero {
                bytes("\tcbz x9, ")
            } else {
                bytes("\tcbnz x9, ")
            },
            label,
            arg,
        ) matches Some((_, t)) ==> exists|load: Seq<u8>, mn: Seq<u8>|
            #![auto]
            t == load + bytes("\t") + mn + bytes(" x9, ") + label + bytes("\n") && (branch_taken(mn, v)
                <==> (zero == (v == 0))),
{
    reveal_strlit("\tcbz x9, ");
    reveal_strlit("\tcbnz x9, ");
    reveal_strlit("\t");
    reveal_strlit(" x9, ");
    reveal_strlit("cbz");
    reveal_strlit("cbnz");
    crate::text::lemma_ascii_bytes("\tcbz x9, ");
    crate::text::lemma_ascii_bytes("\tcbnz x9, ");
    crate::text::lemma_ascii_bytes("\t");
    crate::text::lemma_ascii_bytes(" x9, ");
    crate::text::lemma_ascii_bytes("cbz");
    crate::text::lemma_ascii_bytes("cbnz");
    let mn = if zero {
        bytes("cbz")
    } else {
        bytes("cbnz")
    };
    let branch = if zero {
        bytes("\tcbz x9, ")
    } else {
        bytes("\tcbnz x9, ")
    };
    assert(branch =~= bytes("\t") + mn + bytes(" x9, "));
    assert(bytes("cbz").len() != bytes("cbnz").len());
    if let Some((_, t)) = branch_code(map, stack, branch, label, arg) {
        let load = load_code(map, stack, 9, arg).unwrap().1;
        assert(t =~= load + bytes("\t") + mn + bytes(" x9, ") + label + bytes("\n"));
    }
}

/// A jump on zero loads its operand into `x9` and branches to its label
/// with an instruction taken exactly when the operand is zero; a jump on
/// not zero, with one taken exactly when it is not.
pub proof fn law_jumps_on_zero(map: DataMap, offset: nat, stack: Seq<StackSlot>, label: Seq<u8>, arg: ArgV, v: u64)
    ensures
        stack_op_code(map, offset, stack, IrV::JumpZero { label, arg }) matches Some((_, t)) ==> exists|
            load: Seq<u8>,
            mn: Seq<u8>,
        |
            #![auto]
            t == load + bytes("\t") + mn + bytes(" x9, ") + label + bytes("\n") && (branch_taken(mn, v)
                <==> v == 0),
        stack_op_code(map, offset, stack, IrV::JumpNotZero { label, arg }) matches Some((_, t)) ==> exists|
            load: Seq<u8>,
            mn: Seq<u8>,
        |
            #![auto]
            t == load + bytes("\t") + mn + bytes(" x9, ") + label + bytes("\n") && (branch_taken(mn, v)
                <==> v != 0),
{
    assert(stack_op_code(map, offset, stack, IrV::JumpZero { label, arg }) == branch_code(
        map,
        stack,
        bytes("\tcbz x9, "),
        label,
        arg,
    ));
    assert(stack_op_code(map, offset, stack, IrV::JumpNotZero { label, arg }) == branch_code(
        map,
        stack,
        bytes("\tcbnz x9, "),
        label,
        arg,
    ));
    lemma_branch_text(map, stack, label, arg, true, v);
    lemma_branch_text(map, stack, label, arg, false, v);
}

/// The code of the instructions from the `i`-th on, after `acc`.
pub open spec fn code_from(st: AsmState, ops: Seq<IrV>, i: int, acc: Seq<u8>) -> Option<(AsmState, Seq<u8>)>
    decreases ops.len() - i,
{
    if i < 0 || i >= ops.len() {
        Some((st, acc))
    } else {
        match op_code(st, ops[i]) {
            Some((st1, t)) => code_from(st1, ops, i + 1, acc + t),
            None => None,
        }
    }
}

/// The line that emits one datum under its label.
pub open spec fn data_line(entry: (DataV, Seq<u8>)) -> Seq<u8> {
    bytes("\t") + entry.1 + bytes(": .asciz \"") + match entry.0 {
        DataV::Str(s) => s,
    } + bytes("\"\n")
}

/// The data section: each datum under its label, in the order given.
pub open spec fn data_text(map: DataMap) -> Seq<u8>
    decreases map.len(),
{
    if map.len() == 0 {
        seq![]
    } else {
        data_text(map.drop_last()) + data_line(map.last())
    }
}

/// The entry point that calls `main` and then `_exit`.
pub open spec fn code_header() -> Seq<u8> {
    bytes(".global _start\n") + bytes("_start:\n") + bytes("\tbl main\n") + bytes("\tb _exit\n")
}

/// The state before the first instruction.
pub open spec fn code_start() -> AsmState {
    AsmState { data: seq![], stack: None, callee_offset: 0 }
}

/// The assembly text of a program, or `None` where generation panics.
pub open spec fn spec_assembly(ops: Seq<IrV>) -> Option<Seq<u8>> {
    match code_from(code_start(), ops, 0, code_header()) {
        Some((st, text)) => Some(
            text + if st.data.len() > 0 {
                bytes(".data\n") + data_text(st.data)
            } else {
                seq![]
            },
        ),
        None => None,
    }
}

/// The static data met so far, each with its label, in the order met.
struct DataSection {
    map: Vec<(Data, Vec<u8>)>,
}

impl View for DataSection {
    type V = DataMap;

    closed spec fn view(&self) -> DataMap {
        self.map@.map_values(|e: (Data, Vec<u8>)| (e.0@, e.1@))
    }
}

impl DataSection {
    /// The label of `d`, given a new one where it has none yet.
    fn data(&mut self, d: &Data) -> (label: Vec<u8>)
        ensures
            (final(self)@, label@) == data_label(old(self)@, d@),
    {
        let mut i: usize = 0;
        while i < self.map.len()
            invariant
                0 <= i <= self.map@.len(),
                *self == *old(self),
                lookup_data(self@, d@, 0) == lookup_data(self@, d@, i as int),
            decreases self.map@.len() - i,
        {
            let same = match (&self.map[i].0, d) {
                (Data::Str(a), Data::Str(b)) => bytes_eq(a, b),
            };
            if same {
                assert(self@[i as int].0 == d@);
                return copy_bytes(&self.map[i].1);
            }
            i += 1;
        }
        let n = self.map.len();
        let mut label: Vec<u8> = Vec::new();
        push_str(&mut label, "d");
        push_decimal(&mut label, n as u64);
        let copy = match d {
            Data::Str(s) => Data::Str(copy_bytes(s)),
        };
        self.map.push((copy, copy_bytes(&label)));
        assert(self@ =~= old(self)@.push((d@, label@)));
        label
    }
}

/// Appends the register `x<n>`.
fn push_reg(out: &mut Vec<u8>, n: u8)
    ensures
        final(out)@ == old(out)@ + reg(n as nat),
{
    push_str(out, "x");
    push_decimal(out, n as u64);
    assert(final(out)@ =~= old(out)@ + reg(n as nat));
}

/// The offset of slot `i` below the frame pointer, where it exists and
/// does not overflow.
fn offset_of(stack: &Vec<StackSlot>, i: usize) -> (r: Option<usize>)
    ensures
        slot_offset(stack@, i as int) == match r {
            Some(v) => Some(v as nat),
            None => None::<nat>,
        },
{
    if i >= stack.len() {
        return None;
    }
    let a = stack[i].aligned_offset;
    if a > usize::MAX - 8 {
        None
    } else {
        Some(a + 8)
    }
}

/// Appends the code that loads `src` into register `dst`.
fn load(out: &mut Vec<u8>, data: &mut DataSection, stack: &Vec<StackSlot>, dst: u8, src: &Arg) -> (ok: bool)
    ensures
        match load_code(old(data)@, stack@, dst as nat, src@) {
            Some((m, t)) => ok && final(data)@ == m && final(out)@ == old(out)@ + t,
            None => !ok && final(data)@ == old(data)@,
        },
{
    match src {
        ArgOf::Var(i) => {
            match offset_of(stack, *i) {
                None => false,
                Some(off) => {
                    push_str(out, "\tldr ");
                    push_reg(out, dst);
                    push_str(out, ", [x29, -");
                    push_decimal(out, off as u64);
                    push_str(out, "]\n");
                    assert(final(out)@ =~= old(out)@ + (bytes("\tldr ") + reg(dst as nat) + bytes(", [x29, -")
                        + decimal(off as nat) + bytes("]\n")));
                    true
                },
            }
        },
        ArgOf::Lit(n) => {
            if *n < 4096 {
                push_str(out, "\tmov ");
                push_reg(out, dst);
                push_str(out, ", ");
                push_decimal(out, *n);
                push_str(out, "\n");
                assert(final(out)@ =~= old(out)@ + (bytes("\tmov ") + reg(dst as nat) + bytes(", ")
                    + decimal(*n as nat) + bytes("\n")));
            } else {
                push_str(out, "\tldr ");
                push_reg(out, dst);
                push_str(out, ", =");
                push_decimal(out, *n);
                push_str(out, "\n");
                assert(final(out)@ =~= old(out)@ + (bytes("\tldr ") + reg(dst as nat) + bytes(", =")
                    + decimal(*n as nat) + bytes("\n")));
            }
            true
        },
        ArgOf::Data(d) => {
            let l = data.data(d);
            push_str(out, "\tadrp ");
            push_reg(out, dst);
            push_str(out, ", ");
            push_bytes(out, &l);
            push_str(out, "@PAGE\n");
            push_str(out, "\tadd ");
            push_reg(out, dst);
            push_str(out, ", ");
            push_reg(out, dst);
            push_str(out, ", ");
            push_bytes(out, &l);
            push_str(out, "@PAGEOFF\n");
            assert(final(out)@ =~= old(out)@ + (bytes("\tadrp ") + reg(dst as nat) + bytes(", ") + l@
                + bytes("@PAGE\n") + bytes("\tadd ") + reg(dst as nat) + bytes(", ") + reg(dst as nat)
                + bytes(", ") + l@ + bytes("@PAGEOFF\n")));
            true
        },
    }
}

/// Appends the code that stores register `src` into the slot `dst`.
fn store_reg(out: &mut Vec<u8>, stack: &Vec<StackSlot>, dst: &Arg, src: u8) -> (ok: bool)
    ensures
        match store_reg_code(stack@, dst@, src as nat) {
            Some(t) => ok && final(out)@ == old(out)@ + t,
            None => !ok,
        },
{
    match dst {
        ArgOf::Var(i) => match offset_of(stack, *i) {
            None => false,
            Some(off) => {
                push_str(out, "\tstr ");
                push_reg(out, src);
                push_str(out, ", [x29, -");
                push_decimal(out, off as u64);
                push_str(out, "]\n");
                assert(final(out)@ =~= old(out)@ + (bytes("\tstr ") + reg(src as nat) + bytes(", [x29, -")
                    + decimal(off as nat) + bytes("]\n")));
                true
            },
        },
        _ => false,
    }
}

/// Appends the code that copies `src` into the slot `dst`.
fn store(out: &mut Vec<u8>, data: &mut DataSection, stack: &Vec<StackSlot>, dst: &Arg, src: &Arg) -> (ok: bool)
    ensures
        match store_code(old(data)@, stack@, dst@, src@) {
            Some((m, t)) => ok && final(data)@ == m && final(out)@ == old(out)@ + t,
            None => !ok,
        },
{
    match dst {
        ArgOf::Var(i) => {
            let ghost mid = out@;
            if !load(out, data, stack, 9, src) {
                return false;
            }
            match offset_of(stack, *i) {
                None => false,
                Some(off) => {
                    push_str(out, "\tstr x9, [x29, -");
                    push_decimal(out, off as u64);
                    push_str(out, "]\n");
                    proof {
                        let t = load_code(old(data)@, stack@, 9, src@).unwrap().1;
                        assert(final(out)@ =~= old(out)@ + (t + bytes("\tstr x9, [x29, -") + decimal(off as nat)
                            + bytes("]\n")));
                    }
                    true
                },
            }
        },
        _ => false,
    }
}

/// Appends the code that passes the arguments of a call, in registers
/// `x0`..`x7` and then on the stack; gives the bytes of stacked arguments.
fn call_args(
    out: &mut Vec<u8>,
    data: &mut DataSection,
    stack: &Vec<StackSlot>,
    named: usize,
    arguments: &Vec<(Arg, Layout)>,
) -> (r: Option<usize>)
    ensures
        match call_args_code(old(data)@, stack@, pairs_v(arguments@), named as nat, 0, 0, 0, seq![]) {
            Some((m, nsaa, t)) => r is Some && r->0 == nsaa && final(data)@ == m && final(out)@ == old(
                out,
            )@ + t,
            None => r is None,
        },
{
    let ghost args = pairs_v(arguments@);
    let ghost whole = call_args_code(old(data)@, stack@, args, named as nat, 0, 0, 0, seq![]);
    let mut t: Vec<u8> = Vec::new();
    proof {
        reveal(call_args_code);
    }
    let mut ngrn: usize = 0;
    let mut nsaa: usize = 0;
    let mut i: usize = 0;
    while i < arguments.len()
        invariant
            args == pairs_v(arguments@),
            0 <= i <= arguments@.len(),
            ngrn <= 8,
            whole == call_args_code(old(data)@, stack@, args, named as nat, 0, 0, 0, seq![]),
            whole == call_args_code(data@, stack@, args, named as nat, i as int, ngrn as nat, nsaa as nat, t@),
        decreases arguments@.len() - i,
    {
        proof {
            reveal(call_args_code);
        }
        let arg = &arguments[i].0;
        let layout = arguments[i].1;
        assert(args[i as int] == (arg@, layout));
        if i >= named {
            ngrn = 8;
        }
        if !layout.composite && layout.size <= 8 && ngrn < 8 {
            if !load(&mut t, data, stack, ngrn as u8, arg) {
                return None;
            }
            ngrn += 1;
        } else {
            let m = if layout.align >= 8 {
                layout.align
            } else {
                8
            };
            let at = match checked_round_up(nsaa, m) {
                Some(v) => v,
                None => return None,
            };
            if layout.composite || at > usize::MAX - 8 || layout.size > 8 {
                return None;
            }
            let ghost before = t@;
            if !load(&mut t, data, stack, 9, arg) {
                return None;
            }
            let ghost loaded = t@;
            push_str(&mut t, "\tstr x9, [sp, ");
            push_decimal(&mut t, at as u64);
            push_str(&mut t, "]\n");
            assert(t@ =~= loaded + bytes("\tstr x9, [sp, ") + decimal(at as nat) + bytes("]\n"));
            ngrn = 8;
            nsaa = at + 8;
        }
        i += 1;
    }
    push_bytes(out, &t);
    Some(nsaa)
}

/// Appends the code that stores the arguments of the current function into
/// their slots; `offset` is where the caller's stacked arguments start.
fn load_args(out: &mut Vec<u8>, stack: &Vec<StackSlot>, offset: usize, arguments: &Vec<(Arg, Layout)>) -> (ok: bool)
    ensures
        match load_args_code(stack@, offset as nat, pairs_v(arguments@), 0, 0, 0, seq![]) {
            Some(t) => ok && final(out)@ == old(out)@ + t,
            None => !ok,
        },
{
    let ghost args = pairs_v(arguments@);
    let ghost whole = load_args_code(stack@, offset as nat, args, 0, 0, 0, seq![]);
    let mut t: Vec<u8> = Vec::new();
    proof {
        reveal(load_args_code);
    }
    let mut ngrn: usize = 0;
    let mut nsaa: usize = 0;
    let mut i: usize = 0;
    while i < arguments.len()
        invariant
            args == pairs_v(arguments@),
            0 <= i <= arguments@.len(),
            ngrn <= 8,
            whole == load_args_code(stack@, offset as nat, args, 0, 0, 0, seq![]),
            whole == load_args_code(stack@, offset as nat, args, i as int, ngrn as nat, nsaa as nat, t@),
        decreases arguments@.len() - i,
    {
        proof {
            reveal(load_args_code);
        }
        let arg = &arguments[i].0;
        let layout = arguments[i].1;
        assert(args[i as int] == (arg@, layout));
        if !layout.composite && layout.size <= 8 && ngrn < 8 {
            if !store_reg(&mut t, stack, arg, ngrn as u8) {
                return false;
            }
            ngrn += 1;
        } else {
            let m = if layout.align >= 8 {
                layout.align
            } else {
                8
            };
            let at = match checked_round_up(nsaa, m) {
                Some(v) => v,
                None => return false,
            };
            if at > usize::MAX - 8 || layout.size > 8 || at > usize::MAX - offset {
                return false;
            }
            let ghost before = t@;
            push_str(&mut t, "\tldr x9, [sp, ");
            push_decimal(&mut t, (at + offset) as u64);
            push_str(&mut t, "]\n");
            let ghost mid = t@;
            if !store_reg(&mut t, stack, arg, 9) {
                return false;
            }
            assert(mid =~= before + bytes("\tldr x9, [sp, ") + decimal((at + offset) as nat) + bytes("]\n"));
            ngrn = 8;
            nsaa = at + 8;
        }
        i += 1;
    }
    push_bytes(out, &t);
    true
}

/// Appends the code that reserves `s` bytes for stacked arguments.
fn push_reserve(out: &mut Vec<u8>, s: usize)
    ensures
        final(out)@ == old(out)@ + reserve(s as nat).0,
{
    if s > 0 {
        push_str(out, "\tsub sp, sp, ");
        push_decimal(out, s as u64);
        push_str(out, "\n");
        assert(final(out)@ =~= old(out)@ + reserve(s as nat).0);
    } else {
        assert(final(out)@ =~= old(out)@ + reserve(s as nat).0);
    }
}

/// Appends the code that frees `s` bytes of stacked arguments.
fn push_free(out: &mut Vec<u8>, s: usize)
    ensures
        final(out)@ == old(out)@ + reserve(s as nat).1,
{
    if s > 0 {
        push_str(out, "\tadd sp, sp, ");
        push_decimal(out, s as u64);
        push_str(out, "\n");
        assert(final(out)@ =~= old(out)@ + reserve(s as nat).1);
    } else {
        assert(final(out)@ =~= old(out)@ + reserve(s as nat).1);
    }
}

/// Appends the code that stores the result of a call from `x0`.
fn call_results(out: &mut Vec<u8>, stack: &Vec<StackSlot>, results: &Vec<(Arg, Layout)>) -> (ok: bool)
    ensures
        match call_results_code(stack@, pairs_v(results@)) {
            Some(t) => ok && final(out)@ == old(out)@ + t,
            None => !ok,
        },
{
    if results.len() > 1 {
        return false;
    }
    if results.len() == 0 {
        assert(final(out)@ =~= old(out)@ + seq![]);
        return true;
    }
    let layout = results[0].1;
    if layout.composite || layout.size != 8 || layout.align != 8 {
        return false;
    }
    assert(pairs_v(results@)[0] == (results[0].0@, layout));
    store_reg(out, stack, &results[0].0, 0)
}

/// Appends the code of a call: its arguments, the branch and its result.
fn call(
    out: &mut Vec<u8>,
    data: &mut DataSection,
    stack: &Vec<StackSlot>,
    symbol: &Vec<u8>,
    named: usize,
    arguments: &Vec<(Arg, Layout)>,
    results: &Vec<(Arg, Layout)>,
) -> (ok: bool)
    ensures
        match call_code(old(data)@, stack@, symbol@, named as nat, pairs_v(arguments@), pairs_v(results@)) {
            Some((m, t)) => ok && final(data)@ == m && final(out)@ == old(out)@ + t,
            None => !ok,
        },
{
    let mut t: Vec<u8> = Vec::new();
    let nsaa = match call_args(&mut t, data, stack, named, arguments) {
        Some(n) => n,
        None => return false,
    };
    proof {
        let c = call_args_code(old(data)@, stack@, pairs_v(arguments@), named as nat, 0, 0, 0, seq![]);
        assert(t@ =~= c.unwrap().2);
    }
    let s = match checked_round_up(nsaa, 16) {
        Some(v) => v,
        None => return false,
    };
    let mut body: Vec<u8> = Vec::new();
    push_reserve(&mut body, s);
    assert(body@ =~= reserve(s as nat).0);
    push_bytes(&mut body, &t);
    push_str(&mut body, "\tbl ");
    push_bytes(&mut body, symbol);
    push_str(&mut body, "\n");
    push_free(&mut body, s);
    let ghost b = body@;
    if !call_results(&mut body, stack, results) {
        return false;
    }
    push_bytes(out, &body);
    proof {
        let (pre, post) = reserve(s as nat);
        assert(b == pre + t@ + bytes("\tbl ") + symbol@ + bytes("\n") + post);
    }
    true
}

/// Appends the code that complements the bits of `src` into `dst`.
fn unary(out: &mut Vec<u8>, data: &mut DataSection, stack: &Vec<StackSlot>, dst: &Arg, src: &Arg) -> (ok: bool)
    ensures
        match unary_code(old(data)@, stack@, dst@, src@) {
            Some((m, t)) => ok && final(data)@ == m && final(out)@ == old(out)@ + t,
            None => !ok,
        },
{
    if !load(out, data, stack, 9, src) {
        return false;
    }
    push_str(out, "\tmvn x9, x9\n");
    if !store_reg(out, stack, dst, 9) {
        return false;
    }
    proof {
        let t = load_code(old(data)@, stack@, 9, src@).unwrap().1;
        let t2 = store_reg_code(stack@, dst@, 9).unwrap();
        assert(out@ =~= old(out)@ + (t + bytes("\tmvn x9, x9\n") + t2));
    }
    true
}

/// Appends the code that applies `bin` to `lhs` and `rhs` into `dst`.
fn bin_op(
    out: &mut Vec<u8>,
    data: &mut DataSection,
    stack: &Vec<StackSlot>,
    dst: &Arg,
    lhs: &Arg,
    rhs: &Arg,
    bin: IrBinOpKind,
) -> (ok: bool)
    ensures
        match bin_code(old(data)@, stack@, dst@, lhs@, rhs@, bin) {
            Some((m, t)) => ok && final(data)@ == m && final(out)@ == old(out)@ + t,
            None => !ok,
        },
{
    if !load(out, data, stack, 10, lhs) {
        return false;
    }
    let ghost d1 = data@;
    if !load(out, data, stack, 11, rhs) {
        return false;
    }
    push_bin(out, bin);
    if !store_reg(out, stack, dst, 9) {
        return false;
    }
    proof {
        let t1 = load_code(old(data)@, stack@, 10, lhs@).unwrap().1;
        let t2 = load_code(d1, stack@, 11, rhs@).unwrap().1;
        let t3 = store_reg_code(stack@, dst@, 9).unwrap();
        assert(out@ =~= old(out)@ + (t1 + t2 + bin_text(bin) + t3));
    }
    true
}

/// Appends the code that branches to `label` on `arg` with `branch`.
fn branch(out: &mut Vec<u8>, data: &mut DataSection, stack: &Vec<StackSlot>, zero: bool, label: &Vec<u8>, arg: &Arg) -> (ok: bool)
    ensures
        match branch_code(
            old(data)@,
            stack@,
            if zero {
                bytes("\tcbz x9, ")
            } else {
                bytes("\tcbnz x9, ")
            },
            label@,
            arg@,
        ) {
            Some((m, t)) => ok && final(data)@ == m && final(out)@ == old(out)@ + t,
            None => !ok,
        },
{
    if !load(out, data, stack, 9, arg) {
        return false;
    }
    let ghost o1 = out@;
    if zero {
        push_str(out, "\tcbz x9, ");
    } else {
        push_str(out, "\tcbnz x9, ");
    }
    push_bytes(out, label);
    push_str(out, "\n");
    proof {
        let t = load_code(old(data)@, stack@, 9, arg@).unwrap().1;
        let b = if zero {
            bytes("\tcbz x9, ")
        } else {
            bytes("\tcbnz x9, ")
        };
        assert(out@ =~= old(out)@ + (t + b + label@ + bytes("\n")));
    }
    true
}

/// Appends the code of an instruction that needs the current stack slots.
fn stack_op(out: &mut Vec<u8>, data: &mut DataSection, offset: usize, stack: &Vec<StackSlot>, op: &Ir) -> (ok: bool)
    ensures
        match stack_op_code(old(data)@, offset as nat, stack@, ir_v(*op)) {
            Some((m, t)) => ok && final(data)@ == m && final(out)@ == old(out)@ + t,
            None => !ok,
        },
{
    match op {
        Ir::Store { dst, src } => store(out, data, stack, dst, src),
        Ir::Unary { dst, src, una } => unary(out, data, stack, dst, src),
        Ir::Bin { dst, lhs, rhs, bin } => bin_op(out, data, stack, dst, lhs, rhs, *bin),
        Ir::JumpZero { label, arg } => branch(out, data, stack, true, label, arg),
        Ir::JumpNotZero { label, arg } => branch(out, data, stack, false, label, arg),
        Ir::Call { symbol, named, arguments, results } => call(out, data, stack, symbol, *named, arguments, results),
        Ir::LoadArguments { arguments } => load_args(out, stack, offset, arguments),
        _ => {
            assert(out@ =~= old(out)@ + seq![]);
            true
        },
    }
}

/// Appends the instructions that compute `x10 op x11` into `x9`.
fn push_bin(out: &mut Vec<u8>, bin: IrBinOpKind)
    ensures
        final(out)@ == old(out)@ + bin_text(bin),
{
    match bin {
        IrBinOpKind::Eq | IrBinOpKind::Ne | IrBinOpKind::Gt | IrBinOpKind::Ge | IrBinOpKind::Lt
        | IrBinOpKind::Le => {
            let cond = match bin {
                IrBinOpKind::Eq => "eq",
                IrBinOpKind::Ne => "ne",
                IrBinOpKind::Gt => "gt",
                IrBinOpKind::Ge => "ge",
                IrBinOpKind::Lt => "lt",
                _ => "le",
            };
            push_str(out, "\tcmp x10, x11\n");
            push_str(out, "\tcset x9, ");
            push_str(out, cond);
            push_str(out, "\n");
            assert(final(out)@ =~= old(out)@ + bin_text(bin));
        },
        IrBinOpKind::Mod => {
            push_str(out, "\tudiv x9, x10, x11\n");
            push_str(out, "\tmsub x9, x9, x11, x10\n");
            assert(final(out)@ =~= old(out)@ + bin_text(bin));
        },
        _ => {
            let op = match bin {
                IrBinOpKind::Add => "add",
                IrBinOpKind::Sub => "sub",
                IrBinOpKind::Mul => "mul",
                IrBinOpKind::Div => "udiv",
                IrBinOpKind::BitAnd => "and",
                IrBinOpKind::BitOr => "orr",
                IrBinOpKind::Xor => "eor",
                IrBinOpKind::Shr => "lsr",
                _ => "lsl",
            };
            push_str(out, "\t");
            push_str(out, op);
            push_str(out, " x9, x10, x11\n");
            assert(final(out)@ =~= old(out)@ + bin_text(bin));
        },
    }
}

/// The value of the current stack slots, if any.
pub open spec fn slots_v(stack: Option<&Vec<StackSlot>>) -> Option<Seq<StackSlot>> {
    match stack {
        Some(s) => Some(s@),
        None => None,
    }
}

/// Appends the prologue of a function with `size` bytes of slots; gives the
/// offset of the caller's stacked arguments.
fn allocate(out: &mut Vec<u8>, size: usize) -> (r: Option<usize>)
    ensures
        frame(size as nat) + 16 > usize::MAX ==> r is None,
        frame(size as nat) + 16 <= usize::MAX ==> r == Some((frame(size as nat) + 16) as usize) && final(out)@
            == old(out)@ + allocate_code(frame(size as nat) as nat),
{
    let f = match checked_round_up(size, 16) {
        Some(v) => v,
        None => return None,
    };
    if f > usize::MAX - 16 {
        return None;
    }
    push_str(out, "\tsub sp, sp, ");
    push_decimal(out, (f + 16) as u64);
    push_str(out, "\n");
    push_str(out, "\tstp x29, x30, [sp, ");
    push_decimal(out, f as u64);
    push_str(out, "]\n");
    push_str(out, "\tadd x29, sp, ");
    push_decimal(out, f as u64);
    push_str(out, "\n");
    assert(final(out)@ =~= old(out)@ + allocate_code(f as nat));
    Some(f + 16)
}

/// Appends the code that returns at most one result and frees the frame.
fn ret(
    out: &mut Vec<u8>,
    data: &mut DataSection,
    stack: Option<&Vec<StackSlot>>,
    results: &Vec<(Arg, Layout)>,
    deallocate: usize,
) -> (ok: bool)
    ensures
        match return_code(old(data)@, slots_v(stack), pairs_v(results@), deallocate as nat) {
            Some((m, t)) => ok && final(data)@ == m && final(out)@ == old(out)@ + t,
            None => !ok,
        },
{
    let ghost o0 = out@;
    if results.len() > 1 {
        return false;
    }
    if results.len() == 1 {
        let layout = results[0].1;
        if layout.composite || layout.size != 8 || layout.align != 8 {
            return false;
        }
        assert(pairs_v(results@)[0] == (results[0].0@, layout));
        match stack {
            None => return false,
            Some(s) => {
                if !load(out, data, s, 0, &results[0].0) {
                    return false;
                }
            },
        }
    } else {
        assert(out@ =~= o0 + seq![]);
    }
    let ghost o1 = out@;
    let f = match checked_round_up(deallocate, 16) {
        Some(v) => v,
        None => return false,
    };
    if f > usize::MAX - 16 {
        return false;
    }
    push_epilogue(out, f);
    true
}

/// Appends the epilogue of a function whose slots took a frame of `f`
/// bytes.
fn push_epilogue(out: &mut Vec<u8>, f: usize)
    requires
        f + 16 <= usize::MAX,
    ensures
        final(out)@ == old(out)@ + epilogue_code(f as nat),
{
    push_str(out, "\tldp x29, x30, [sp, ");
    push_decimal(out, f as u64);
    push_str(out, "]\n");
    push_str(out, "\tadd sp, sp, ");
    push_decimal(out, (f + 16) as u64);
    push_str(out, "\n");
    push_str(out, "\tret\n");
    assert(final(out)@ =~= old(out)@ + epilogue_code(f as nat));
}

/// Appends the code of one instruction, updating the current stack slots
/// and the offset of the caller's stacked arguments.
#[verifier::rlimit(40)]
fn instruction<'a>(
    out: &mut Vec<u8>,
    data: &mut DataSection,
    stack: &mut Option<&'a Vec<StackSlot>>,
    callee: &mut usize,
    op: &'a Ir,
) -> (ok: bool)
    ensures
        match op_code(
            AsmState { data: old(data)@, stack: slots_v(*old(stack)), callee_offset: *old(callee) as nat },
            ir_v(*op),
        ) {
            Some((st, t)) => ok && st == AsmState {
                data: final(data)@,
                stack: slots_v(*final(stack)),
                callee_offset: *final(callee) as nat,
            } && final(out)@ == old(out)@ + t,
            None => !ok,
        },
{
    match op {
        Ir::Label { label } => {
            push_bytes(out, label);
            push_str(out, ":\n");
            true
        },
        Ir::Jump { label } => {
            push_str(out, "\tb ");
            push_bytes(out, label);
            push_str(out, "\n");
            assert(final(out)@ =~= old(out)@ + (bytes("\tb ") + label@ + bytes("\n")));
            true
        },
        Ir::Allocate { size, slots } => match allocate(out, *size) {
            Some(c) => {
                *callee = c;
                *stack = Some(slots);
                true
            },
            None => false,
        },
        Ir::Return { results, deallocate } => {
            if !ret(out, data, *stack, results, *deallocate) {
                return false;
            }
            *stack = None;
            true
        },
        _ => match *stack {
            None => false,
            Some(s) => stack_op(out, data, *callee, s, op),
        },
    }
}

/// Appends the data section: each datum under its label.
fn push_data(out: &mut Vec<u8>, data: &DataSection)
    ensures
        final(out)@ == old(out)@ + data_text(data@),
{
    let mut k: usize = 0;
    while k < data.map.len()
        invariant
            0 <= k <= data@.len(),
            out@ == old(out)@ + data_text(data@.subrange(0, k as int)),
        decreases data@.len() - k,
    {
        let ghost o = out@;
        push_str(out, "\t");
        push_bytes(out, &data.map[k].1);
        push_str(out, ": .asciz \"");
        match &data.map[k].0 {
            Data::Str(s) => push_bytes(out, s),
        }
        push_str(out, "\"\n");
        proof {
            let sub = data@.subrange(0, k + 1);
            assert(sub.drop_last() =~= data@.subrange(0, k as int));
            assert(sub.last() == data@[k as int]);
            assert(out@ =~= o + data_line(data@[k as int]));
        }
        k += 1;
    }
    assert(data@.subrange(0, data@.len() as int) =~= data@);
}

/// The assembly text of a program, or `None` where generation panics: on
/// an instruction that needs stack slots outside a function, a slot that
/// does not exist, a store into an operand that is not a slot, a result or
/// argument that is not one double word, or offsets that overflow.
pub fn try_assemble(ir: &[Ir]) -> (r: Option<Vec<u8>>)
    ensures
        match r {
            Some(t) => spec_assembly(irs_v(ir@)) == Some(t@),
            None => spec_assembly(irs_v(ir@)) is None,
        },
{
    let ghost ops = irs_v(ir@);
    let mut out: Vec<u8> = Vec::new();
    push_str(&mut out, ".global _start\n");
    push_str(&mut out, "_start:\n");
    push_str(&mut out, "\tbl main\n");
    push_str(&mut out, "\tb _exit\n");
    assert(out@ =~= code_header());
    let mut data = DataSection { map: Vec::new() };
    assert(data@ =~= seq![]);
    let mut stack: Option<&Vec<StackSlot>> = None;
    let mut callee: usize = 0;
    let mut i: usize = 0;
    while i < ir.len()
        invariant
            ops == irs_v(ir@),
            0 <= i <= ir@.len(),
            code_from(code_start(), ops, 0, code_header()) == code_from(
                AsmState { data: data@, stack: slots_v(stack), callee_offset: callee as nat },
                ops,
                i as int,
                out@,
            ),
        decreases ir@.len() - i,
    {
        assert(ops[i as int] == ir_v(ir@[i as int]));
        if !instruction(&mut out, &mut data, &mut stack, &mut callee, &ir[i]) {
            return None;
        }
        i += 1;
    }
    if data.map.len() > 0 {
        push_str(&mut out, ".data\n");
        push_data(&mut out, &data);
    } else {
        assert(out@ =~= out@ + seq![]);
    }
    Some(out)
}

/// The assembly text of a program.
pub fn assemble(ir: &[Ir]) -> (r: Vec<u8>)
    requires
        spec_assembly(irs_v(ir@)) is Some,
    ensures
        spec_assembly(irs_v(ir@)) == Some(r@),
{
    match try_assemble(ir) {
        Some(t) => t,
        None => Vec::new(),
    }
}

} // verus!
