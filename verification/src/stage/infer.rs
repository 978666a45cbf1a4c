//! Type propagation over the nodes of a program. Assigning a type to a
//! node without one gives it the type and assigns the same type to the
//! nodes it passes types to: the declaration of a variable, the variables
//! of a declaration, the typed children where types flow down, and the
//! parent where they flow up. A node with a type keeps it, and another type
//! reaching it is an error. Nodes name each other by their position in the
//! node table.
use crate::error::{Error, ErrorKind};
use crate::stage::tokenize::Span;
use crate::stage::ty::{is_msg, mismatch, mismatch_text};
use crate::tree::{Literal, LiteralOf, Type};
use vstd::prelude::*;

verus! {

/// A node of a program as type propagation sees it.
pub struct TypeNode {
    pub span: Span,
    /// The declaration it is a variable of.
    pub var_of: Option<usize>,
    /// Whether it declares a variable, so that its variables take its type.
    pub is_decl: bool,
    /// The variables of it, where it declares a variable.
    pub users: Vec<usize>,
    /// Its typed children, where types flow down from it.
    pub down: Vec<usize>,
    /// Its parent, where types flow up from it to a parent that takes them.
    pub up: Option<usize>,
}

/// The nodes a node passes its type to, in order.
pub open spec fn targets(n: TypeNode) -> Seq<usize> {
    (match n.var_of {
        Some(v) => seq![v],
        None => seq![],
    }) + (if n.is_decl {
        n.users@
    } else {
        seq![]
    }) + n.down@ + (match n.up {
        Some(p) => seq![p],
        None => seq![],
    })
}

/// Whether every node that the graph names is one of its nodes.
pub open spec fn graph_closed(g: Seq<TypeNode>) -> bool {
    forall|i: int, j: int|
        0 <= i < g.len() && 0 <= j < targets(g[i]).len() ==> #[trigger] targets(g[i])[j] < g.len()
}

/// Whether `ts` is a typing of the graph that meets the propagation: it
/// keeps the types the nodes had, gives each assigned node its type, and
/// every node it types that had none has passed its type on.
pub open spec fn solves(
    g: Seq<TypeNode>,
    init: Seq<Option<Type>>,
    events: Seq<(usize, Type)>,
    ts: Seq<Option<Type>>,
) -> bool {
    &&& ts.len() == g.len()
    &&& forall|i: int| 0 <= i < g.len() && (#[trigger] init[i]) is Some ==> ts[i] == init[i]
    &&& forall|k: int| 0 <= k < events.len() ==> ts[(#[trigger] events[k]).0 as int] == Some(events[k].1)
    &&& forall|i: int, j: int|
        0 <= i < g.len() && init[i] is None && ts[i] is Some && 0 <= j < targets(g[i]).len()
            ==> ts[#[trigger] targets(g[i])[j] as int] == ts[i]
}

/// Whether the typing `ts` is contained in every typing that meets the
/// propagation.
pub open spec fn least(
    g: Seq<TypeNode>,
    init: Seq<Option<Type>>,
    events: Seq<(usize, Type)>,
    ts: Seq<Option<Type>>,
) -> bool {
    forall|other: Seq<Option<Type>>|
        #[trigger] solves(g, init, events, other) ==> forall|i: int|
            0 <= i < ts.len() && (#[trigger] ts[i]) is Some ==> other[i] == ts[i]
}

/// The number of nodes without a type.
pub open spec fn untyped(ts: Seq<Option<Type>>) -> nat
    decreases ts.len(),
{
    if ts.len() == 0 {
        0
    } else {
        untyped(ts.drop_last()) + if ts.last() is None {
            1nat
        } else {
            0nat
        }
    }
}

/// Typing a node without a type leaves one node fewer without one.
pub proof fn lemma_untyped_update(ts: Seq<Option<Type>>, i: int, t: Type)
    requires
        0 <= i < ts.len(),
        ts[i] is None,
    ensures
        untyped(ts.update(i, Some(t))) + 1 == untyped(ts),
    decreases ts.len(),
{
    let u = ts.update(i, Some(t));
    if i == ts.len() - 1 {
        assert(u.drop_last() =~= ts.drop_last());
    } else {
        assert(u.drop_last() =~= ts.drop_last().update(i, Some(t)));
        lemma_untyped_update(ts.drop_last(), i, t);
    }
}

/// The nodes a node passes its type to.
fn node_targets(n: &TypeNode) -> (r: Vec<usize>)
    ensures
        r@ == targets(*n),
{
    let mut out: Vec<usize> = Vec::new();
    if let Some(v) = n.var_of {
        out.push(v);
    }
    let ghost t1 = out@;
    if n.is_decl {
        let mut i: usize = 0;
        while i < n.users.len()
            invariant
                0 <= i <= n.users@.len(),
                out@ == t1 + n.users@.subrange(0, i as int),
            decreases n.users@.len() - i,
        {
            out.push(n.users[i]);
            i = i + 1;
            assert(out@ =~= t1 + n.users@.subrange(0, i as int));
        }
        assert(n.users@.subrange(0, n.users@.len() as int) =~= n.users@);
    }
    let ghost t2 = out@;
    let mut i: usize = 0;
    while i < n.down.len()
        invariant
            0 <= i <= n.down@.len(),
            out@ == t2 + n.down@.subrange(0, i as int),
        decreases n.down@.len() - i,
    {
        out.push(n.down[i]);
        i = i + 1;
        assert(out@ =~= t2 + n.down@.subrange(0, i as int));
    }
    assert(n.down@.subrange(0, n.down@.len() as int) =~= n.down@);
    let ghost t3 = out@;
    if let Some(p) = n.up {
        out.push(p);
    }
    proof {
        assert(t1 =~= match n.var_of {
            Some(v) => seq![v],
            None => seq![],
        });
        assert(t2 =~= t1 + (if n.is_decl {
            n.users@
        } else {
            seq![]
        }));
        assert(out@ =~= t3 + (match n.up {
            Some(p) => seq![p],
            None => seq![],
        }));
    }
    out
}

/// The propagation as this library runs it: events wait on a stack and the
/// last one is taken first; an event types a node without a type and
/// pushes its targets with that type, in order, and is dropped at a node
/// with that type already. The first event that reaches a node with
/// another type ends the run with that node, its type and the type that
/// reached it. (Events name nodes of the table.)
pub open spec fn prop_run(g: Seq<TypeNode>, ts: Seq<Option<Type>>, stack: Seq<(usize, Type)>) -> Result<
    Seq<Option<Type>>,
    (int, Type, Type),
>
    decreases untyped(ts), stack.len(),
{
    if stack.len() == 0 {
        Ok(ts)
    } else {
        let m = stack.last().0 as int;
        let t = stack.last().1;
        let rest = stack.drop_last();
        if !(0 <= m < ts.len() && m < g.len()) {
            prop_run(g, ts, rest)
        } else {
            match ts[m] {
                Some(t0) => if t0 != t {
                    Err((m, t0, t))
                } else {
                    prop_run(g, ts, rest)
                },
                None => {
                    proof {
                        lemma_untyped_update(ts, m, t);
                    }
                    prop_run(g, ts.update(m, Some(t)), rest + targets(g[m]).map_values(|x: usize| (x, t)))
                },
            }
        }
    }
}

/// Propagates the assigned types through the graph, starting from the
/// types `init` that the nodes have. Gives the least typing that meets the
/// propagation, or, where none does, the error at a node that two types
/// reach.
pub fn propagate_types(g: &Vec<TypeNode>, init: Vec<Option<Type>>, events: &Vec<(usize, Type)>) -> (r:
    Result<Vec<Option<Type>>, Error>)
    requires
        init@.len() == g@.len(),
        graph_closed(g@),
        forall|k: int| 0 <= k < events@.len() ==> (#[trigger] events@[k]).0 < g@.len(),
    ensures
        r matches Ok(ts) ==> solves(g@, init@, events@, ts@) && least(g@, init@, events@, ts@),
        r matches Err(e) ==> (forall|other: Seq<Option<Type>>| !#[trigger] solves(g@, init@, events@, other)),
        match prop_run(g@, init@, events@) {
            Ok(ts) => r matches Ok(v) && v@ == ts,
            Err((i, a, b)) => r matches Err(e) && 0 <= i < g@.len() && a != b && is_msg(
                e,
                g@[i].span,
                mismatch_text(a, b),
            ),
        },
{
    let n = g.len();
    let ghost start = init@;
    let mut types = init;
    let mut stack: Vec<(usize, Type)> = Vec::new();
    let mut k: usize = 0;
    while k < events.len()
        invariant
            0 <= k <= events@.len(),
            stack@ == events@.subrange(0, k as int),
        decreases events@.len() - k,
    {
        stack.push(events[k]);
        k = k + 1;
        assert(stack@ =~= events@.subrange(0, k as int));
    }
    assert(events@.subrange(0, events@.len() as int) =~= events@);
    loop
        invariant
            n == g@.len(),
            start == init@,
            prop_run(g@, start, events@) == prop_run(g@, types@, stack@),
            start.len() == n,
            forall|k: int| 0 <= k < events@.len() ==> (#[trigger] events@[k]).0 < n,
            graph_closed(g@),
            types@.len() == n,
            forall|i: int| 0 <= i < n && (#[trigger] start[i]) is Some ==> types@[i] == start[i],
            forall|s: int| 0 <= s < stack@.len() ==> (#[trigger] stack@[s]).0 < n,
            forall|other: Seq<Option<Type>>|
                #[trigger] solves(g@, start, events@, other) ==> (forall|i: int|
                    0 <= i < n && (#[trigger] types@[i]) is Some ==> other[i] == types@[i]) && (forall|s: int|
                    0 <= s < stack@.len() ==> other[(#[trigger] stack@[s]).0 as int] == Some(stack@[s].1)),
            forall|q: int|
                0 <= q < events@.len() ==> types@[(#[trigger] events@[q]).0 as int] == Some(events@[q].1)
                    || stack@.contains(events@[q]),
            forall|i: int, j: int|
                0 <= i < n && start[i] is None && types@[i] is Some && 0 <= j < targets(g@[i]).len() ==> types@[
                #[trigger] targets(g@[i])[j] as int] == types@[i] || stack@.contains(
                    (targets(g@[i])[j], types@[i].unwrap()),
                ),
        decreases untyped(types@), stack@.len(),
    {
        let ghost old_types = types@;
        let ghost old_stack = stack@;
        match stack.pop() {
            None => {
                proof {
                    assert forall|q: int| 0 <= q < events@.len() implies types@[(
                    #[trigger] events@[q]).0 as int] == Some(events@[q].1) by {
                        assert(!stack@.contains(events@[q]));
                    }
                    assert forall|i: int, j: int|
                        0 <= i < n && start[i] is None && types@[i] is Some && 0 <= j < targets(
                            g@[i],
                        ).len() implies types@[#[trigger] targets(g@[i])[j] as int] == types@[i] by {
                        assert(!stack@.contains((targets(g@[i])[j], types@[i].unwrap())));
                    }
                    assert(solves(g@, start, events@, types@));
                }
                return Ok(types);
            },
            Some((m, t)) => {
                assert(old_stack == stack@.push((m, t)));
                assert(old_stack[old_stack.len() - 1] == (m, t));
                assert(old_stack.drop_last() =~= stack@);
                match types[m] {
                    Some(t0) => {
                        if t0 != t {
                            proof {
                                assert forall|other: Seq<Option<Type>>| !#[trigger] solves(
                                    g@,
                                    start,
                                    events@,
                                    other,
                                ) by {
                                    if solves(g@, start, events@, other) {
                                        assert(other[m as int] == types@[m as int]);
                                        assert(other[old_stack[old_stack.len() - 1].0 as int] == Some(
                                            old_stack[old_stack.len() - 1].1,
                                        ));
                                    }
                                }
                            }
                            return Err(mismatch(g[m].span, t0, t));
                        }
                        proof {
                            assert forall|x: (usize, Type)| #[trigger] old_stack.contains(x) implies stack@.contains(x)
                                || types@[x.0 as int] == Some(x.1) by {
                                if !stack@.contains(x) {
                                    let s = choose|s: int| 0 <= s < old_stack.len() && old_stack[s] == x;
                                    if s < stack@.len() {
                                        assert(stack@[s] == x);
                                    }
                                }
                            }
                            assert forall|q: int| 0 <= q < events@.len() implies types@[(
                            #[trigger] events@[q]).0 as int] == Some(events@[q].1) || stack@.contains(
                                events@[q],
                            ) by {
                                if !(types@[events@[q].0 as int] == Some(events@[q].1)) {
                                    assert(old_stack.contains(events@[q]));
                                }
                            }
                            assert forall|i: int, j: int|
                                0 <= i < n && start[i] is None && types@[i] is Some && 0 <= j < targets(
                                    g@[i],
                                ).len() implies types@[#[trigger] targets(g@[i])[j] as int] == types@[i]
                                || stack@.contains((targets(g@[i])[j], types@[i].unwrap())) by {
                                let x = (targets(g@[i])[j], types@[i].unwrap());
                                if !(types@[targets(g@[i])[j] as int] == types@[i]) {
                                    assert(old_stack.contains(x));
                                }
                            }
                        }
                    },
                    None => {
                        let ts = node_targets(&g[m]);
                        types.set(m, Some(t));
                        proof {
                            lemma_untyped_update(old_types, m as int, t);
                            assert(start[m as int] is None);
                        }
                        let ghost mid = stack@;
                        let mut j: usize = 0;
                        while j < ts.len()
                            invariant
                                0 <= j <= ts@.len(),
                                ts@ == targets(g@[m as int]),
                                stack@ == mid + Seq::new(j as nat, |x: int| (ts@[x], t)),
                            decreases ts@.len() - j,
                        {
                            stack.push((ts[j], t));
                            j = j + 1;
                            assert(stack@ =~= mid + Seq::new(j as nat, |x: int| (ts@[x], t)));
                        }
                        proof {
                            let pushed = Seq::new(ts@.len(), |x: int| (ts@[x], t));
                            assert(stack@ == mid + pushed);
                            assert(pushed =~= targets(g@[m as int]).map_values(|x: usize| (x, t)));
                            assert(types@ =~= old_types.update(m as int, Some(t)));
                            assert(prop_run(g@, old_types, old_stack) == prop_run(g@, types@, stack@));
                            assert forall|x: (usize, Type)| #[trigger] old_stack.contains(x) implies stack@.contains(x)
                                || types@[x.0 as int] == Some(x.1) by {
                                if !mid.contains(x) {
                                    let s = choose|s: int| 0 <= s < old_stack.len() && old_stack[s] == x;
                                    if s < mid.len() {
                                        assert(mid[s] == x);
                                    }
                                } else {
                                    let s = choose|s: int| 0 <= s < mid.len() && mid[s] == x;
                                    assert(stack@[s] == x);
                                }
                            }
                            assert forall|jj: int| 0 <= jj < ts@.len() implies stack@.contains(
                                (#[trigger] ts@[jj], t),
                            ) by {
                                assert(stack@[mid.len() + jj] == (ts@[jj], t));
                            }
                            assert forall|s: int| 0 <= s < stack@.len() implies (#[trigger] stack@[s]).0 < n by {
                                if s >= mid.len() {
                                    let jj = s - mid.len();
                                    assert(stack@[s] == (ts@[jj], t));
                                    assert(targets(g@[m as int])[jj] < g@.len());
                                }
                            }
                            assert forall|other: Seq<Option<Type>>| #[trigger] solves(g@, start, events@, other)
                                implies (forall|i: int|
                                0 <= i < n && (#[trigger] types@[i]) is Some ==> other[i] == types@[i]) && (forall|
                                s: int,
                            |
                                0 <= s < stack@.len() ==> other[(#[trigger] stack@[s]).0 as int] == Some(
                                    stack@[s].1,
                                )) by {
                                assert(other[old_stack[old_stack.len() - 1].0 as int] == Some(
                                    old_stack[old_stack.len() - 1].1,
                                ));
                                assert(other[m as int] == Some(t));
                                assert forall|s: int| 0 <= s < stack@.len() implies other[(
                                #[trigger] stack@[s]).0 as int] == Some(stack@[s].1) by {
                                    if s < mid.len() {
                                        assert(stack@[s] == old_stack[s]);
                                    } else {
                                        let jj = s - mid.len();
                                        assert(stack@[s] == (ts@[jj], t));
                                        assert(targets(g@[m as int])[jj] == ts@[jj]);
                                    }
                                }
                            }
                            assert forall|i: int| 0 <= i < n && old_types[i] is Some implies types@[i]
                                == old_types[i] by {}
                            assert forall|q: int| 0 <= q < events@.len() implies types@[(
                            #[trigger] events@[q]).0 as int] == Some(events@[q].1) || stack@.contains(
                                events@[q],
                            ) by {
                                if !(old_types[events@[q].0 as int] == Some(events@[q].1)) {
                                    assert(old_stack.contains(events@[q]));
                                }
                            }
                            assert forall|i: int, j: int|
                                0 <= i < n && start[i] is None && types@[i] is Some && 0 <= j < targets(
                                    g@[i],
                                ).len() implies types@[#[trigger] targets(g@[i])[j] as int] == types@[i]
                                || stack@.contains((targets(g@[i])[j], types@[i].unwrap())) by {
                                if i == m {
                                    assert(ts@[j] == targets(g@[i])[j]);
                                    assert(stack@.contains((ts@[j], t)));
                                } else {
                                    let x = (targets(g@[i])[j], types@[i].unwrap());
                                    assert(old_types[i] == types@[i]);
                                    if !(old_types[targets(g@[i])[j] as int] == old_types[i]) {
                                        assert(old_stack.contains(x));
                                    }
                                }
                            }
                        }
                    },
                }
            },
        }
    }
}

/// The least typing is unique: whatever order the propagation assigns the
/// types in, it ends with the same types.
pub proof fn law_least_typing_unique(
    g: Seq<TypeNode>,
    init: Seq<Option<Type>>,
    events: Seq<(usize, Type)>,
    a: Seq<Option<Type>>,
    b: Seq<Option<Type>>,
)
    requires
        solves(g, init, events, a),
        least(g, init, events, a),
        solves(g, init, events, b),
        least(g, init, events, b),
    ensures
        a == b,
{
    assert forall|i: int| 0 <= i < a.len() implies a[i] == b[i] by {
        if a[i] is Some {
            assert(solves(g, init, events, b));
        } else if b[i] is Some {
            assert(solves(g, init, events, a));
        }
    }
    assert(a =~= b);
}

/// What propagating `events` from the types `init` gives: the least typing
/// that meets the propagation, where one does.
pub open spec fn propagation(g: Seq<TypeNode>, init: Seq<Option<Type>>, events: Seq<(usize, Type)>) -> Option<
    Seq<Option<Type>>,
> {
    if exists|ts: Seq<Option<Type>>| #[trigger] solves(g, init, events, ts) {
        Some(choose|ts: Seq<Option<Type>>| #[trigger] solves(g, init, events, ts) && least(g, init, events, ts))
    } else {
        None
    }
}

/// Propagates the assigned types, as `propagate_types`, stated as the
/// propagation.
fn propagate(g: &Vec<TypeNode>, init: Vec<Option<Type>>, events: &Vec<(usize, Type)>) -> (r: Result<
    Vec<Option<Type>>,
    Error,
>)
    requires
        init@.len() == g@.len(),
        graph_closed(g@),
        forall|k: int| 0 <= k < events@.len() ==> (#[trigger] events@[k]).0 < g@.len(),
    ensures
        match propagation(g@, init@, events@) {
            Some(ts) => r matches Ok(v) && v@ == ts,
            None => r is Err,
        },
        match prop_run(g@, init@, events@) {
            Ok(ts) => r matches Ok(v) && v@ == ts,
            Err((i, a, b)) => r matches Err(e) && 0 <= i < g@.len() && a != b && is_msg(
                e,
                g@[i].span,
                mismatch_text(a, b),
            ),
        },
        r matches Ok(v) ==> v@.len() == g@.len(),
{
    let ghost i0 = init@;
    let r = propagate_types(g, init, events);
    proof {
        match &r {
            Ok(v) => {
                assert(solves(g@, i0, events@, v@));
                let c = choose|ts: Seq<Option<Type>>| #[trigger] solves(g@, i0, events@, ts) && least(g@, i0, events@, ts);
                law_least_typing_unique(g@, i0, events@, v@, c);
            },
            Err(_) => {},
        }
    }
    r
}

/// The events where types flow down: each typed node gives its type to
/// the typed children it passes types down to, node by node.
pub open spec fn down_events(g: Seq<TypeNode>, ts: Seq<Option<Type>>) -> Seq<(usize, Type)>
    decreases g.len(),
{
    if g.len() == 0 {
        seq![]
    } else {
        let k = g.len() - 1;
        let rest = down_events(g.drop_last(), ts);
        match ts[k] {
            Some(t) => rest + g[k].down@.map_values(|c: usize| (c, t)),
            None => rest,
        }
    }
}

/// The events where types flow up: each typed node gives its type to the
/// parent it passes types up to.
pub open spec fn up_events(g: Seq<TypeNode>, ts: Seq<Option<Type>>) -> Seq<(usize, Type)>
    decreases g.len(),
{
    if g.len() == 0 {
        seq![]
    } else {
        let k = g.len() - 1;
        let rest = up_events(g.drop_last(), ts);
        match (ts[k], g[k].up) {
            (Some(t), Some(p)) => rest.push((p, t)),
            _ => rest,
        }
    }
}

/// The events that type the integer literals still without a type as
/// `i32`, given the positions of the integer literals.
pub open spec fn default_events(ints: Seq<usize>, ts: Seq<Option<Type>>) -> Seq<(usize, Type)>
    decreases ints.len(),
{
    if ints.len() == 0 {
        seq![]
    } else {
        let rest = default_events(ints.drop_last(), ts);
        if ts[ints.last() as int] is None {
            rest.push((ints.last(), Type::I32))
        } else {
            rest
        }
    }
}

/// Whether every event names a node of the graph.
pub open spec fn events_closed(g: Seq<TypeNode>, events: Seq<(usize, Type)>) -> bool {
    forall|k: int| 0 <= k < events.len() ==> (#[trigger] events[k]).0 < g.len()
}

/// The events where types flow down from the typed nodes.
pub fn types_down_events(g: &Vec<TypeNode>, ts: &Vec<Option<Type>>) -> (r: Vec<(usize, Type)>)
    requires
        ts@.len() == g@.len(),
        graph_closed(g@),
    ensures
        r@ == down_events(g@, ts@),
        events_closed(g@, r@),
{
    let mut out: Vec<(usize, Type)> = Vec::new();
    let mut i: usize = 0;
    while i < g.len()
        invariant
            0 <= i <= g@.len(),
            ts@.len() == g@.len(),
            graph_closed(g@),
            out@ == down_events(g@.subrange(0, i as int), ts@),
            events_closed(g@, out@),
        decreases g@.len() - i,
    {
        assert(g@.subrange(0, i + 1).drop_last() =~= g@.subrange(0, i as int));
        assert(g@.subrange(0, i + 1)[i as int] == g@[i as int]);
        if let Some(t) = ts[i] {
            let ghost before = out@;
            let mut j: usize = 0;
            while j < g[i].down.len()
                invariant
                    0 <= j <= g@[i as int].down@.len(),
                    i < g@.len(),
                    graph_closed(g@),
                    out@ == before + g@[i as int].down@.subrange(0, j as int).map_values(
                        |c: usize| (c, t),
                    ),
                    events_closed(g@, before),
                    events_closed(g@, out@),
                decreases g@[i as int].down@.len() - j,
            {
                let c = g[i].down[j];
                proof {
                    let k = (if g@[i as int].is_decl {
                        g@[i as int].users@.len()
                    } else {
                        0
                    }) + (if g@[i as int].var_of is Some {
                        1int
                    } else {
                        0
                    }) + j;
                    assert(targets(g@[i as int])[k] == c);
                }
                out.push((c, t));
                j = j + 1;
                assert(out@ =~= before + g@[i as int].down@.subrange(0, j as int).map_values(
                    |c: usize| (c, t),
                ));
            }
            assert(g@[i as int].down@.subrange(0, j as int) =~= g@[i as int].down@);
        }
        i = i + 1;
    }
    assert(g@.subrange(0, g@.len() as int) =~= g@);
    out
}

/// The events where types flow up from the typed nodes.
pub fn types_up_events(g: &Vec<TypeNode>, ts: &Vec<Option<Type>>) -> (r: Vec<(usize, Type)>)
    requires
        ts@.len() == g@.len(),
        graph_closed(g@),
    ensures
        r@ == up_events(g@, ts@),
        events_closed(g@, r@),
{
    let mut out: Vec<(usize, Type)> = Vec::new();
    let mut i: usize = 0;
    while i < g.len()
        invariant
            0 <= i <= g@.len(),
            ts@.len() == g@.len(),
            graph_closed(g@),
            out@ == up_events(g@.subrange(0, i as int), ts@),
            events_closed(g@, out@),
        decreases g@.len() - i,
    {
        assert(g@.subrange(0, i + 1).drop_last() =~= g@.subrange(0, i as int));
        assert(g@.subrange(0, i + 1)[i as int] == g@[i as int]);
        match (ts[i], g[i].up) {
            (Some(t), Some(p)) => {
                proof {
                    let k = targets(g@[i as int]).len() - 1;
                    assert(targets(g@[i as int])[k] == p);
                }
                out.push((p, t));
            },
            _ => {},
        }
        i = i + 1;
    }
    assert(g@.subrange(0, g@.len() as int) =~= g@);
    out
}

/// The events that type the integer literals without a type as `i32`.
pub fn integer_default_events(ints: &Vec<usize>, ts: &Vec<Option<Type>>) -> (r: Vec<(usize, Type)>)
    requires
        forall|k: int| 0 <= k < ints@.len() ==> #[trigger] ints@[k] < ts@.len(),
    ensures
        r@ == default_events(ints@, ts@),
        forall|k: int| 0 <= k < r@.len() ==> (#[trigger] r@[k]).0 < ts@.len(),
{
    let mut out: Vec<(usize, Type)> = Vec::new();
    let mut i: usize = 0;
    while i < ints.len()
        invariant
            0 <= i <= ints@.len(),
            forall|k: int| 0 <= k < ints@.len() ==> #[trigger] ints@[k] < ts@.len(),
            out@ == default_events(ints@.subrange(0, i as int), ts@),
            forall|k: int| 0 <= k < out@.len() ==> (#[trigger] out@[k]).0 < ts@.len(),
        decreases ints@.len() - i,
    {
        assert(ints@.subrange(0, i + 1).drop_last() =~= ints@.subrange(0, i as int));
        if ts[ints[i]].is_none() {
            out.push((ints[i], Type::I32));
        }
        i = i + 1;
    }
    assert(ints@.subrange(0, ints@.len() as int) =~= ints@);
    out
}

/// The propagation steps of the type stage, from the types the nodes
/// start with: the types of the calls and their arguments, then types
/// flowing up, then down, then `i32` for the integer literals still
/// without a type.
pub open spec fn inferred(
    g: Seq<TypeNode>,
    init: Seq<Option<Type>>,
    call_events: Seq<(usize, Type)>,
    ints: Seq<usize>,
) -> Option<Seq<Option<Type>>> {
    match propagation(g, init, call_events) {
        None => None,
        Some(t1) => match propagation(g, t1, up_events(g, t1)) {
            None => None,
            Some(t2) => match propagation(g, t2, down_events(g, t2)) {
                None => None,
                Some(t3) => propagation(g, t3, default_events(ints, t3)),
            },
        },
    }
}

/// The propagation steps of the type stage as this library runs them:
/// the typing, or the node, its type and the type that reached it where the
/// first step in which two types meet stops.
pub open spec fn infer_run(
    g: Seq<TypeNode>,
    init: Seq<Option<Type>>,
    call_events: Seq<(usize, Type)>,
    ints: Seq<usize>,
) -> Result<Seq<Option<Type>>, (int, Type, Type)> {
    match prop_run(g, init, call_events) {
        Err(x) => Err(x),
        Ok(t1) => match prop_run(g, t1, up_events(g, t1)) {
            Err(x) => Err(x),
            Ok(t2) => match prop_run(g, t2, down_events(g, t2)) {
                Err(x) => Err(x),
                Ok(t3) => prop_run(g, t3, default_events(ints, t3)),
            },
        },
    }
}

/// Runs the propagation steps of the type stage. An error is the one of
/// the first step in which two types meet at a node.
pub fn infer_types(
    g: &Vec<TypeNode>,
    init: Vec<Option<Type>>,
    call_events: &Vec<(usize, Type)>,
    ints: &Vec<usize>,
) -> (r: Result<Vec<Option<Type>>, Error>)
    requires
        init@.len() == g@.len(),
        graph_closed(g@),
        events_closed(g@, call_events@),
        forall|k: int| 0 <= k < ints@.len() ==> #[trigger] ints@[k] < g@.len(),
    ensures
        match inferred(g@, init@, call_events@, ints@) {
            Some(ts) => r matches Ok(v) && v@ == ts,
            None => r is Err,
        },
        match infer_run(g@, init@, call_events@, ints@) {
            Ok(ts) => r matches Ok(v) && v@ == ts,
            Err((i, a, b)) => r matches Err(e) && 0 <= i < g@.len() && a != b && is_msg(
                e,
                g@[i].span,
                mismatch_text(a, b),
            ),
        },
{
    let t1 = propagate(g, init, call_events)?;
    let up = types_up_events(g, &t1);
    let t2 = propagate(g, t1, &up)?;
    let down = types_down_events(g, &t2);
    let t3 = propagate(g, t2, &down)?;
    let defaults = integer_default_events(ints, &t3);
    propagate(g, t3, &defaults)
}

/// The types once each pair of `updates` gives its node its type, in
/// turn.
pub open spec fn with_types(ts: Seq<Option<Type>>, updates: Seq<(usize, Type)>) -> Seq<Option<Type>>
    decreases updates.len(),
{
    if updates.len() == 0 {
        ts
    } else {
        with_types(ts, updates.drop_last()).update(updates.last().0 as int, Some(updates.last().1))
    }
}

/// Gives each node of `updates` its type, in turn.
pub fn apply_types(ts: &mut Vec<Option<Type>>, updates: &Vec<(usize, Type)>)
    requires
        forall|k: int| 0 <= k < updates@.len() ==> (#[trigger] updates@[k]).0 < old(ts)@.len(),
    ensures
        final(ts)@ == with_types(old(ts)@, updates@),
{
    let mut i: usize = 0;
    while i < updates.len()
        invariant
            0 <= i <= updates@.len(),
            ts@.len() == old(ts)@.len(),
            forall|k: int| 0 <= k < updates@.len() ==> (#[trigger] updates@[k]).0 < old(ts)@.len(),
            ts@ == with_types(old(ts)@, updates@.subrange(0, i as int)),
        decreases updates@.len() - i,
    {
        assert(updates@.subrange(0, i + 1).drop_last() =~= updates@.subrange(0, i as int));
        let (n, t) = updates[i];
        ts.set(n, Some(t));
        i = i + 1;
    }
    assert(updates@.subrange(0, updates@.len() as int) =~= updates@);
}

/// The types that the string literals get: `str`.
pub open spec fn string_updates(literals: Seq<(usize, Literal)>) -> Seq<(usize, Type)>
    decreases literals.len(),
{
    if literals.len() == 0 {
        seq![]
    } else {
        let rest = string_updates(literals.drop_last());
        if literals.last().1 is Str {
            rest.push((literals.last().0, Type::Str))
        } else {
            rest
        }
    }
}

/// Types the string literals as `str`; integer literals wait for the
/// propagation.
pub fn assign_literal_types(literals: &Vec<(usize, Literal)>) -> (r: Vec<(usize, Type)>)
    ensures
        r@ == string_updates(literals@),
{
    let mut out: Vec<(usize, Type)> = Vec::new();
    let mut i: usize = 0;
    while i < literals.len()
        invariant
            0 <= i <= literals@.len(),
            out@ == string_updates(literals@.subrange(0, i as int)),
        decreases literals@.len() - i,
    {
        assert(literals@.subrange(0, i + 1).drop_last() =~= literals@.subrange(0, i as int));
        if let LiteralOf::Str(_) = &literals[i].1 {
            out.push((literals[i].0, Type::Str));
        }
        i = i + 1;
    }
    assert(literals@.subrange(0, literals@.len() as int) =~= literals@);
    out
}

/// The types that the procedures get: that of their result declaration,
/// or `()` where they have none; `None` where a result declaration has no
/// type.
pub open spec fn proc_updates(ts: Seq<Option<Type>>, procs: Seq<(usize, Option<usize>)>) -> Option<
    Seq<(usize, Type)>,
>
    decreases procs.len(),
{
    if procs.len() == 0 {
        Some(seq![])
    } else {
        match proc_updates(ts, procs.drop_last()) {
            None => None,
            Some(rest) => match procs.last().1 {
                None => Some(rest.push((procs.last().0, Type::Not))),
                Some(d) => match ts[d as int] {
                    Some(t) => Some(rest.push((procs.last().0, t))),
                    None => None,
                },
            },
        }
    }
}

/// Types each procedure, given with its result declaration, if any.
pub fn assign_proc_types(ts: &Vec<Option<Type>>, procs: &Vec<(usize, Option<usize>)>) -> (r: Option<Vec<(usize, Type)>>)
    requires
        forall|k: int| 0 <= k < procs@.len() ==> ((#[trigger] procs@[k]).1 matches Some(d) ==> d < ts@.len()),
    ensures
        match proc_updates(ts@, procs@) {
            Some(u) => r matches Some(v) && v@ == u,
            None => r is None,
        },
{
    let mut out: Vec<(usize, Type)> = Vec::new();
    let mut i: usize = 0;
    while i < procs.len()
        invariant
            0 <= i <= procs@.len(),
            forall|k: int| 0 <= k < procs@.len() ==> ((#[trigger] procs@[k]).1 matches Some(d) ==> d < ts@.len()),
            proc_updates(ts@, procs@.subrange(0, i as int)) == Some(out@),
        decreases procs@.len() - i,
    {
        assert(procs@.subrange(0, i + 1).drop_last() =~= procs@.subrange(0, i as int));
        assert(procs@.subrange(0, i + 1).last() == procs@[i as int]);
        match procs[i].1 {
            None => out.push((procs[i].0, Type::Not)),
            Some(d) => match ts[d] {
                Some(t) => out.push((procs[i].0, t)),
                None => {
                    proof {
                        lemma_proc_updates_stop(ts@, procs@, i as int, procs@.len() as int);
                        assert(procs@.subrange(0, procs@.len() as int) =~= procs@);
                    }
                    return None;
                },
            },
        }
        i = i + 1;
    }
    assert(procs@.subrange(0, procs@.len() as int) =~= procs@);
    Some(out)
}

/// Once a procedure's result declaration has no type, no later prefix of
/// the procedures types.
proof fn lemma_proc_updates_stop(ts: Seq<Option<Type>>, procs: Seq<(usize, Option<usize>)>, i: int, j: int)
    requires
        0 <= i < j <= procs.len(),
        proc_updates(ts, procs.subrange(0, i + 1)) is None,
    ensures
        proc_updates(ts, procs.subrange(0, j)) is None,
    decreases j,
{
    if j > i + 1 {
        lemma_proc_updates_stop(ts, procs, i, j - 1);
        assert(procs.subrange(0, j).drop_last() =~= procs.subrange(0, j - 1));
    }
}

/// The types that the `return` statements get: that of the procedure they
/// are in, given for each with its span; the first one in no procedure is
/// an error.
pub open spec fn return_updates(rets: Seq<(usize, Span, Option<Type>)>) -> Result<Seq<(usize, Type)>, Error>
    decreases rets.len(),
{
    if rets.len() == 0 {
        Ok(seq![])
    } else {
        match return_updates(rets.drop_last()) {
            Err(e) => Err(e),
            Ok(rest) => match rets.last().2 {
                Some(t) => Ok(rest.push((rets.last().0, t))),
                None => Err(
                    Error {
                        span: rets.last().1,
                        kind: ErrorKind::Custom("`return` is not in a procedure body"),
                    },
                ),
            },
        }
    }
}

/// Types each `return`, given with its span and the type of the procedure
/// it is in, if it is in one.
pub fn assign_return_exprs(rets: &Vec<(usize, Span, Option<Type>)>) -> (r: Result<Vec<(usize, Type)>, Error>)
    ensures
        match return_updates(rets@) {
            Ok(u) => r matches Ok(v) && v@ == u,
            Err(e) => r == Err::<Vec<(usize, Type)>, Error>(e),
        },
{
    let mut out: Vec<(usize, Type)> = Vec::new();
    let mut i: usize = 0;
    while i < rets.len()
        invariant
            0 <= i <= rets@.len(),
            return_updates(rets@.subrange(0, i as int)) == Ok::<Seq<(usize, Type)>, Error>(out@),
        decreases rets@.len() - i,
    {
        assert(rets@.subrange(0, i + 1).drop_last() =~= rets@.subrange(0, i as int));
        assert(rets@.subrange(0, i + 1).last() == rets@[i as int]);
        match rets[i].2 {
            Some(t) => out.push((rets[i].0, t)),
            None => {
                let e = rets[i].1.custom("`return` is not in a procedure body");
                proof {
                    lemma_return_updates_stop(rets@, i as int, rets@.len() as int);
                    assert(rets@.subrange(0, rets@.len() as int) =~= rets@);
                }
                return Err(e);
            },
        }
        i = i + 1;
    }
    assert(rets@.subrange(0, rets@.len() as int) =~= rets@);
    Ok(out)
}

/// Once a `return` is in no procedure, every later prefix fails with its
/// error.
proof fn lemma_return_updates_stop(rets: Seq<(usize, Span, Option<Type>)>, i: int, j: int)
    requires
        0 <= i < j <= rets.len(),
        return_updates(rets.subrange(0, i + 1)) is Err,
    ensures
        return_updates(rets.subrange(0, j)) == return_updates(rets.subrange(0, i + 1)),
    decreases j,
{
    if j > i + 1 {
        lemma_return_updates_stop(rets, i, j - 1);
        assert(rets.subrange(0, j).drop_last() =~= rets.subrange(0, j - 1));
    }
}

/// The types that the variables get: that of their declaration, where it
/// declares a variable or an argument and has a type.
pub open spec fn variable_updates(ts: Seq<Option<Type>>, vars: Seq<(usize, usize, bool)>) -> Seq<(usize, Type)>
    decreases vars.len(),
{
    if vars.len() == 0 {
        seq![]
    } else {
        let rest = variable_updates(ts, vars.drop_last());
        let v = vars.last();
        match ts[v.1 as int] {
            Some(t) => if v.2 {
                rest.push((v.0, t))
            } else {
                rest
            },
            None => rest,
        }
    }
}

/// Types each variable, given with its declaration and whether that
/// declares a variable or an argument, as its declaration.
pub fn assign_variables(ts: &Vec<Option<Type>>, vars: &Vec<(usize, usize, bool)>) -> (r: Vec<(usize, Type)>)
    requires
        forall|k: int| 0 <= k < vars@.len() ==> (#[trigger] vars@[k]).1 < ts@.len(),
    ensures
        r@ == variable_updates(ts@, vars@),
{
    let mut out: Vec<(usize, Type)> = Vec::new();
    let mut i: usize = 0;
    while i < vars.len()
        invariant
            0 <= i <= vars@.len(),
            forall|k: int| 0 <= k < vars@.len() ==> (#[trigger] vars@[k]).1 < ts@.len(),
            out@ == variable_updates(ts@, vars@.subrange(0, i as int)),
        decreases vars@.len() - i,
    {
        assert(vars@.subrange(0, i + 1).drop_last() =~= vars@.subrange(0, i as int));
        assert(vars@.subrange(0, i + 1).last() == vars@[i as int]);
        if vars[i].2 {
            if let Some(t) = ts[vars[i].1] {
                out.push((vars[i].0, t));
            }
        }
        i = i + 1;
    }
    assert(vars@.subrange(0, vars@.len() as int) =~= vars@);
    out
}

} // verus!
