//! Name resolution of the current front end: every variable is bound to
//! the declaration of its name, looked up in the scopes that enclose it.
use crate::error::{Error, ErrorKind};
use crate::stage::ir::Node;
use crate::stage::tokenize::Span;
use crate::text::{bytes_eq, copy_bytes};
use vstd::prelude::*;

verus! {

/// What name resolution reads of a node of the tree.
pub struct ScopeNode {
    pub entity: Node,
    /// The name the node carries, if any.
    pub ident: Option<Vec<u8>>,
    pub span: Span,
    /// The node uses a variable.
    pub is_var: bool,
    /// The node declares a variable or an argument.
    pub is_decl: bool,
    /// The node is a constant declaration or a use of one.
    pub is_const: bool,
    /// The node declares a variable (rather than using one).
    pub is_var_decl: bool,
    /// The node opens a scope.
    pub new_scope: bool,
    pub children: Vec<ScopeNode>,
}

/// The value of a node.
pub struct ScopeNodeV {
    pub entity: Node,
    pub ident: Option<Seq<u8>>,
    pub span: Span,
    pub is_var: bool,
    pub is_decl: bool,
    pub is_const: bool,
    pub is_var_decl: bool,
    pub new_scope: bool,
    pub children: Seq<ScopeNodeV>,
}

impl ScopeNode {
    pub open spec fn view_node(&self) -> ScopeNodeV
        decreases self,
    {
        ScopeNodeV {
            entity: self.entity,
            ident: match self.ident {
                Some(s) => Some(s@),
                None => None,
            },
            span: self.span,
            is_var: self.is_var,
            is_decl: self.is_decl,
            is_const: self.is_const,
            is_var_decl: self.is_var_decl,
            new_scope: self.new_scope,
            children: Seq::new(
                self.children@.len(),
                |i: int|
                    if 0 <= i < self.children@.len() {
                        self.children@[i].view_node()
                    } else {
                        arbitrary()
                    },
            ),
        }
    }
}

/// The scopes open at a point, outermost first: the names each declares,
/// with the declaring node.
pub type Scopes = Seq<Seq<(Seq<u8>, Node)>>;

/// Whether some open scope declares `name`.
pub open spec fn declared(sc: Scopes, name: Seq<u8>) -> bool {
    exists|m: int, k: int| 0 <= m < sc.len() && 0 <= k < sc[m].len() && #[trigger] sc[m][k].0 == name
}

/// The declaration of `name` in the scope `map`, from its `k`-th entry on.
pub open spec fn find_in(map: Seq<(Seq<u8>, Node)>, name: Seq<u8>, k: int) -> Option<Node>
    decreases map.len() - k,
{
    if k < 0 || k >= map.len() {
        None
    } else if map[k].0 == name {
        Some(map[k].1)
    } else {
        find_in(map, name, k + 1)
    }
}

/// The declaration of `name` in the outermost scope, from the `m`-th on,
/// that declares it.
pub open spec fn resolve(sc: Scopes, name: Seq<u8>, m: int) -> Option<Node>
    decreases sc.len() - m,
{
    if m < 0 || m >= sc.len() {
        None
    } else {
        match find_in(sc[m], name, 0) {
            Some(d) => Some(d),
            None => resolve(sc, name, m + 1),
        }
    }
}

/// The scopes with `name` declared by `node` in the innermost one; `None`
/// where no scope is open, which panics.
pub open spec fn insert_last(sc: Scopes, name: Seq<u8>, node: Node) -> Option<Scopes> {
    if sc.len() == 0 {
        None
    } else {
        Some(sc.update(sc.len() - 1, sc.last().push((name, node))))
    }
}

/// The outcome of resolving names in a part of the tree: the scopes after
/// it and the bindings of variables to declarations so far.
pub enum Walked {
    Done(Scopes, Seq<(Node, Node)>),
    Failed(Error),
    Panics,
}

/// The error for a name declared twice at `span`.
pub open spec fn redefinition(span: Span) -> Error {
    Error { span, kind: ErrorKind::Custom("Variable redefinition") }
}

/// The error for a variable whose name no scope declares.
pub open spec fn undeclared(span: Span) -> Error {
    Error { span, kind: ErrorKind::Custom("Variable is not declared") }
}

/// The constant declarations among the children of `n`, from the `i`-th
/// on, enter the innermost scope before anything else.
pub open spec fn consts_pass(sc: Scopes, n: ScopeNodeV, i: int) -> Walked
    decreases n.children.len() - i,
{
    if i < 0 || i >= n.children.len() {
        Walked::Done(sc, seq![])
    } else {
        let c = n.children[i];
        if c.is_const && c.is_var_decl && c.ident is Some {
            let name = c.ident.unwrap();
            if declared(sc, name) {
                Walked::Failed(redefinition(c.span))
            } else {
                match insert_last(sc, name, c.entity) {
                    None => Walked::Panics,
                    Some(sc2) => consts_pass(sc2, n, i + 1),
                }
            }
        } else {
            consts_pass(sc, n, i + 1)
        }
    }
}

/// What one child does to the scopes before its own children are walked:
/// a variable is bound, a declaration is entered.
pub open spec fn child_step(sc: Scopes, c: ScopeNodeV, out: Seq<(Node, Node)>) -> Walked {
    if !c.is_const && c.ident is Some {
        let name = c.ident.unwrap();
        if c.is_var {
            match resolve(sc, name, 0) {
                Some(d) => Walked::Done(sc, out.push((c.entity, d))),
                None => Walked::Failed(undeclared(c.span)),
            }
        } else if c.is_decl {
            if declared(sc, name) {
                Walked::Failed(redefinition(c.span))
            } else {
                match insert_last(sc, name, c.entity) {
                    None => Walked::Panics,
                    Some(sc2) => Walked::Done(sc2, out),
                }
            }
        } else {
            Walked::Done(sc, out)
        }
    } else {
        Walked::Done(sc, out)
    }
}

/// Resolution in node `n`: a scope opens where it opens one, its constant
/// declarations enter first, then each child in turn, then the scope
/// closes. A node without children changes nothing: a scope it would open
/// would close again at once.
pub open spec fn walk(sc: Scopes, n: ScopeNodeV, out: Seq<(Node, Node)>) -> Walked
    decreases n, n.children.len() + 1,
{
    let sc1 = if n.new_scope {
        sc.push(seq![])
    } else {
        sc
    };
    if n.children.len() == 0 {
        Walked::Done(sc, out)
    } else {
        match consts_pass(sc1, n, 0) {
            Walked::Done(sc2, _) => close_scope(children_pass(sc2, n, 0, out), n),
            other => other,
        }
    }
}

/// The scope that `n` opened closes after its children.
pub open spec fn close_scope(w: Walked, n: ScopeNodeV) -> Walked {
    match w {
        Walked::Done(sc, out) => Walked::Done(
            if n.new_scope && sc.len() > 0 {
                sc.drop_last()
            } else {
                sc
            },
            out,
        ),
        other => other,
    }
}

/// Resolution in the children of `n` from the `i`-th on.
pub open spec fn children_pass(sc: Scopes, n: ScopeNodeV, i: int, out: Seq<(Node, Node)>) -> Walked
    decreases n, n.children.len() - i,
{
    if i < 0 || i >= n.children.len() {
        Walked::Done(sc, out)
    } else {
        match child_step(sc, n.children[i], out) {
            Walked::Done(sc2, out2) => match walk(sc2, n.children[i], out2) {
                Walked::Done(sc3, out3) => children_pass(sc3, n, i + 1, out3),
                other => other,
            },
            other => other,
        }
    }
}

/// Resolution in a source file: one scope is open at its root.
pub open spec fn spec_resolve(root: ScopeNodeV) -> Walked {
    walk(seq![seq![]], root, seq![])
}

/// The two stacks have the same scopes but for what the innermost declares.
pub open spec fn same_outer(a: Scopes, b: Scopes) -> bool {
    a.len() == b.len() && a.len() > 0 && a.drop_last() == b.drop_last()
}

proof fn lemma_consts_pass_outer(sc: Scopes, n: ScopeNodeV, i: int)
    requires
        sc.len() > 0,
    ensures
        consts_pass(sc, n, i) matches Walked::Done(sc2, _) ==> same_outer(sc, sc2),
    decreases n.children.len() - i,
{
    if 0 <= i < n.children.len() {
        let c = n.children[i];
        if c.is_const && c.is_var_decl && c.ident is Some {
            let name = c.ident.unwrap();
            if !declared(sc, name) {
                let sc2 = sc.update(sc.len() - 1, sc.last().push((name, c.entity)));
                assert(sc2.drop_last() =~= sc.drop_last());
                lemma_consts_pass_outer(sc2, n, i + 1);
            }
        } else {
            lemma_consts_pass_outer(sc, n, i + 1);
        }
    }
}

proof fn lemma_child_step_outer(sc: Scopes, c: ScopeNodeV, out: Seq<(Node, Node)>)
    requires
        sc.len() > 0,
    ensures
        child_step(sc, c, out) matches Walked::Done(sc2, _) ==> same_outer(sc, sc2),
{
    if !c.is_const && c.ident is Some && !c.is_var && c.is_decl {
        let name = c.ident.unwrap();
        let sc2 = sc.update(sc.len() - 1, sc.last().push((name, c.entity)));
        assert(sc2.drop_last() =~= sc.drop_last());
    }
}

proof fn lemma_walk_outer(sc: Scopes, n: ScopeNodeV, out: Seq<(Node, Node)>)
    requires
        sc.len() > 0,
    ensures
        walk(sc, n, out) matches Walked::Done(sc2, _) ==> same_outer(sc, sc2) && (n.new_scope
            ==> sc2 == sc),
    decreases n, n.children.len() + 1,
{
    let sc1 = if n.new_scope {
        sc.push(seq![])
    } else {
        sc
    };
    if n.children.len() > 0 {
        lemma_consts_pass_outer(sc1, n, 0);
        if let Walked::Done(sc2, _) = consts_pass(sc1, n, 0) {
            lemma_children_pass_outer(sc2, n, 0, out);
            if let Walked::Done(sc3, _) = children_pass(sc2, n, 0, out) {
                if n.new_scope {
                    assert(sc3.drop_last() =~= sc1.drop_last());
                    assert(sc1.drop_last() =~= sc);
                }
            }
        }
    }
}

proof fn lemma_children_pass_outer(sc: Scopes, n: ScopeNodeV, i: int, out: Seq<(Node, Node)>)
    requires
        sc.len() > 0,
    ensures
        children_pass(sc, n, i, out) matches Walked::Done(sc2, _) ==> same_outer(sc, sc2),
    decreases n, n.children.len() - i,
{
    if 0 <= i < n.children.len() {
        let c = n.children[i];
        lemma_child_step_outer(sc, c, out);
        if let Walked::Done(sc2, out2) = child_step(sc, c, out) {
            lemma_walk_outer(sc2, c, out2);
            if let Walked::Done(sc3, out3) = walk(sc2, c, out2) {
                lemma_children_pass_outer(sc3, n, i + 1, out3);
            }
        }
    }
}

/// A scope hides what is declared in it: resolution of any node returns
/// with as many scopes open as it started with, only the innermost of them
/// can have gained declarations, and once it has walked a node that opens a
/// scope, the open scopes are exactly those before it, so a name declared
/// inside that node resolves afterwards as it did before the node.
pub proof fn law_scope_hides(sc: Scopes, n: ScopeNodeV, out: Seq<(Node, Node)>)
    requires
        sc.len() > 0,
    ensures
        walk(sc, n, out) matches Walked::Done(sc2, _) ==> {
            &&& sc2.len() == sc.len()
            &&& same_outer(sc, sc2)
            &&& n.new_scope ==> sc2 == sc && forall|name: Seq<u8>| #[trigger] resolve(sc2, name, 0)
                == resolve(sc, name, 0) && declared(sc2, name) == declared(sc, name)
        },
{
    lemma_walk_outer(sc, n, out);
}

/// Whether resolution binds the child `c` as a use of a variable.
pub open spec fn binds(c: ScopeNodeV) -> bool {
    !c.is_const && c.ident is Some && c.is_var
}

/// The uses of variables below `n`, in the order resolution meets them.
pub open spec fn var_uses(n: ScopeNodeV) -> Seq<Node>
    decreases n, n.children.len() + 1,
{
    if n.children.len() == 0 {
        seq![]
    } else {
        var_uses_from(n, 0)
    }
}

/// `var_uses` of the children of `n` from the `i`-th on, each child before
/// what lies below it.
pub open spec fn var_uses_from(n: ScopeNodeV, i: int) -> Seq<Node>
    decreases n, n.children.len() - i,
{
    if i < 0 || i >= n.children.len() {
        seq![]
    } else {
        let c = n.children[i];
        (if binds(c) {
            seq![c.entity]
        } else {
            seq![]
        }) + var_uses(c) + var_uses_from(n, i + 1)
    }
}

/// The variables of a list of bindings.
pub open spec fn bound_vars(out: Seq<(Node, Node)>) -> Seq<Node> {
    out.map_values(|p: (Node, Node)| p.0)
}

proof fn lemma_child_step_binds(sc: Scopes, c: ScopeNodeV, out: Seq<(Node, Node)>)
    ensures
        child_step(sc, c, out) matches Walked::Done(_, out2) ==> bound_vars(out2) == bound_vars(out)
            + (if binds(c) {
            seq![c.entity]
        } else {
            seq![]
        }),
{
    if binds(c) {
        if let Some(d) = resolve(sc, c.ident.unwrap(), 0) {
            assert(bound_vars(out.push((c.entity, d))) =~= bound_vars(out) + seq![c.entity]);
        }
    } else {
        assert(bound_vars(out) + seq![] =~= bound_vars(out));
    }
}

proof fn lemma_walk_binds(sc: Scopes, n: ScopeNodeV, out: Seq<(Node, Node)>)
    ensures
        walk(sc, n, out) matches Walked::Done(_, out2) ==> bound_vars(out2) == bound_vars(out)
            + var_uses(n),
    decreases n, n.children.len() + 1,
{
    let sc1 = if n.new_scope {
        sc.push(seq![])
    } else {
        sc
    };
    if n.children.len() == 0 {
        assert(bound_vars(out) + seq![] =~= bound_vars(out));
    } else if let Walked::Done(sc2, _) = consts_pass(sc1, n, 0) {
        lemma_children_pass_binds(sc2, n, 0, out);
    }
}

proof fn lemma_children_pass_binds(sc: Scopes, n: ScopeNodeV, i: int, out: Seq<(Node, Node)>)
    ensures
        children_pass(sc, n, i, out) matches Walked::Done(_, out2) ==> bound_vars(out2)
            == bound_vars(out) + var_uses_from(n, i),
    decreases n, n.children.len() - i,
{
    if i < 0 || i >= n.children.len() {
        assert(bound_vars(out) + seq![] =~= bound_vars(out));
    } else {
        let c = n.children[i];
        lemma_child_step_binds(sc, c, out);
        if let Walked::Done(sc2, out2) = child_step(sc, c, out) {
            lemma_walk_binds(sc2, c, out2);
            if let Walked::Done(sc3, out3) = walk(sc2, c, out2) {
                lemma_children_pass_binds(sc3, n, i + 1, out3);
                let own = if binds(c) {
                    seq![c.entity]
                } else {
                    seq![]
                };
                assert(bound_vars(out) + own + var_uses(c) + var_uses_from(n, i + 1) =~= bound_vars(
                    out,
                ) + (own + var_uses(c) + var_uses_from(n, i + 1)));
            }
        }
    }
}

/// Resolution that succeeds binds every use of a variable in the tree, each
/// once, in the order of the tree, and nothing else.
pub proof fn law_every_variable_bound(root: ScopeNodeV)
    ensures
        spec_resolve(root) matches Walked::Done(_, out) ==> bound_vars(out) == var_uses(root),
{
    lemma_walk_binds(seq![seq![]], root, seq![]);
    assert(bound_vars(seq![]) + var_uses(root) =~= var_uses(root));
}

/// The scopes open at a point, as the resolver holds them.
pub type ScopeStack = Vec<Vec<(Vec<u8>, Node)>>;

/// The value of a scope.
pub open spec fn map_v(m: Seq<(Vec<u8>, Node)>) -> Seq<(Seq<u8>, Node)> {
    m.map_values(|p: (Vec<u8>, Node)| (p.0@, p.1))
}

/// The value of a stack of scopes.
pub open spec fn scopes_v(sc: Seq<Vec<(Vec<u8>, Node)>>) -> Scopes {
    sc.map_values(|m: Vec<(Vec<u8>, Node)>| map_v(m@))
}

/// Whether some open scope declares `name`.
fn is_declared(sc: &ScopeStack, name: &Vec<u8>) -> (r: bool)
    ensures
        r == declared(scopes_v(sc@), name@),
{
    let ghost s = scopes_v(sc@);
    let mut m: usize = 0;
    while m < sc.len()
        invariant
            s == scopes_v(sc@),
            0 <= m <= sc@.len(),
            forall|a: int, k: int| 0 <= a < m && 0 <= k < s[a].len() ==> s[a][k].0 != name@,
        decreases sc@.len() - m,
    {
        let mut k: usize = 0;
        while k < sc[m].len()
            invariant
                s == scopes_v(sc@),
                0 <= m < sc@.len(),
                0 <= k <= sc@[m as int]@.len(),
                forall|a: int, j: int| 0 <= a < m && 0 <= j < s[a].len() ==> s[a][j].0 != name@,
                forall|j: int| 0 <= j < k ==> s[m as int][j].0 != name@,
            decreases sc@[m as int]@.len() - k,
        {
            assert(s[m as int][k as int] == (sc@[m as int]@[k as int].0@, sc@[m as int]@[k as int].1));
            if bytes_eq(&sc[m][k].0, name) {
                assert(s[m as int][k as int].0 == name@);
                return true;
            }
            k += 1;
        }
        m += 1;
    }
    false
}

/// The declaration of `name` in the outermost scope that declares it.
fn resolve_name(sc: &ScopeStack, name: &Vec<u8>) -> (r: Option<Node>)
    ensures
        r == resolve(scopes_v(sc@), name@, 0),
{
    let ghost s = scopes_v(sc@);
    let mut m: usize = 0;
    while m < sc.len()
        invariant
            s == scopes_v(sc@),
            0 <= m <= sc@.len(),
            resolve(s, name@, 0) == resolve(s, name@, m as int),
        decreases sc@.len() - m,
    {
        let mut k: usize = 0;
        while k < sc[m].len()
            invariant
                s == scopes_v(sc@),
                0 <= m < sc@.len(),
                0 <= k <= sc@[m as int]@.len(),
                resolve(s, name@, 0) == resolve(s, name@, m as int),
                find_in(s[m as int], name@, 0) == find_in(s[m as int], name@, k as int),
            decreases sc@[m as int]@.len() - k,
        {
            assert(s[m as int][k as int] == (sc@[m as int]@[k as int].0@, sc@[m as int]@[k as int].1));
            if bytes_eq(&sc[m][k].0, name) {
                assert(find_in(s[m as int], name@, k as int) == Some(sc@[m as int]@[k as int].1));
                assert(resolve(s, name@, m as int) == Some(sc@[m as int]@[k as int].1));
                return Some(sc[m][k].1);
            }
            k += 1;
        }
        assert(s[m as int].len() == sc@[m as int]@.len());
        m += 1;
    }
    None
}

/// Declares `name` by `node` in the innermost scope.
fn declare(sc: &mut ScopeStack, name: &Vec<u8>, node: Node)
    requires
        old(sc)@.len() > 0,
    ensures
        insert_last(scopes_v(old(sc)@), name@, node) == Some(scopes_v(final(sc)@)),
        final(sc)@.len() == old(sc)@.len(),
{
    let ghost o = old(sc)@;
    let mut m = sc.pop().unwrap();
    assert(m == o.last());
    m.push((copy_bytes(name), node));
    assert(map_v(m@) =~= map_v(o.last()@).push((name@, node)));
    sc.push(m);
    assert(sc@ =~= o.update(o.len() - 1, m));
    assert(scopes_v(sc@) =~= scopes_v(o).update(
        scopes_v(o).len() - 1,
        scopes_v(o).last().push((name@, node)),
    ));
}

/// Enters the constant declarations among the children of `n`.
fn consts_pass_exec(sc: &mut ScopeStack, n: &ScopeNode) -> (r: Result<(), Error>)
    requires
        old(sc)@.len() > 0,
    ensures
        match consts_pass(scopes_v(old(sc)@), n.view_node(), 0) {
            Walked::Done(s, _) => r is Ok && scopes_v(final(sc)@) == s && final(sc)@.len() == old(sc)@.len(),
            Walked::Failed(e) => r matches Err(x) && x == e,
            Walked::Panics => false,
        },
{
    let ghost nv = n.view_node();
    let mut i: usize = 0;
    while i < n.children.len()
        invariant
            nv == n.view_node(),
            0 <= i <= n.children@.len(),
            sc@.len() == old(sc)@.len(),
            sc@.len() > 0,
            consts_pass(scopes_v(old(sc)@), nv, 0) == consts_pass(scopes_v(sc@), nv, i as int),
        decreases n.children@.len() - i,
    {
        let c = &n.children[i];
        assert(nv.children[i as int] == c.view_node());
        if c.is_const && c.is_var_decl {
            match &c.ident {
                Some(name) => {
                    if is_declared(sc, name) {
                        return Err(c.span.custom("Variable redefinition"));
                    }
                    declare(sc, name, c.entity);
                },
                None => {},
            }
        }
        i += 1;
    }
    Ok(())
}

/// Resolution in node `n`, binding variables into `out`.
fn walk_source_file(sc: &mut ScopeStack, n: &ScopeNode, out: &mut Vec<(Node, Node)>) -> (r: Result<(), Error>)
    requires
        old(sc)@.len() > 0,
    ensures
        match walk(scopes_v(old(sc)@), n.view_node(), old(out)@) {
            Walked::Done(s, o) => r is Ok && scopes_v(final(sc)@) == s && final(out)@ == o
                && final(sc)@.len() >= old(sc)@.len(),
            Walked::Failed(e) => r matches Err(x) && x == e,
            Walked::Panics => false,
        },
    decreases n,
{
    let ghost nv = n.view_node();
    let ghost s0 = scopes_v(sc@);
    if n.children.len() == 0 {
        return Ok(());
    }
    if n.new_scope {
        sc.push(Vec::new());
        assert(map_v(Seq::<(Vec<u8>, Node)>::empty()) =~= seq![]);
        assert(scopes_v(sc@) =~= s0.push(seq![]));
    }
    let ghost s1 = scopes_v(sc@);
    let ghost len1 = sc@.len();
    match consts_pass_exec(sc, n) {
        Err(e) => {
            return Err(e);
        },
        Ok(()) => {},
    }
    let ghost whole = walk(s0, nv, old(out)@);
    assert(whole == close_scope(children_pass(scopes_v(sc@), nv, 0, old(out)@), nv));
    let mut i: usize = 0;
    while i < n.children.len()
        invariant
            nv == n.view_node(),
            0 <= i <= n.children@.len(),
            sc@.len() >= len1,
            len1 > 0,
            n.children@.len() > 0,
            whole == walk(scopes_v(old(sc)@), nv, old(out)@),
            whole == close_scope(children_pass(scopes_v(sc@), nv, i as int, out@), nv),
        decreases n.children@.len() - i,
    {
        let c = &n.children[i];
        let ghost cv = c.view_node();
        assert(nv.children[i as int] == cv);
        let ghost si = scopes_v(sc@);
        let ghost oi = out@;
        if !c.is_const {
            match &c.ident {
                Some(name) => {
                    if c.is_var {
                        match resolve_name(sc, name) {
                            Some(d) => {
                                out.push((c.entity, d));
                            },
                            None => {
                                assert(child_step(si, cv, oi) == Walked::Failed(undeclared(c.span)));
                                assert(children_pass(si, nv, i as int, oi) == Walked::Failed(undeclared(c.span)));
                                return Err(c.span.custom("Variable is not declared"));
                            },
                        }
                    } else if c.is_decl {
                        if is_declared(sc, name) {
                            assert(child_step(si, cv, oi) == Walked::Failed(redefinition(c.span)));
                            assert(children_pass(si, nv, i as int, oi) == Walked::Failed(redefinition(c.span)));
                            return Err(c.span.custom("Variable redefinition"));
                        }
                        declare(sc, name, c.entity);
                    }
                },
                None => {},
            }
        }
        assert(child_step(si, cv, oi) == Walked::Done(scopes_v(sc@), out@));
        let ghost sj = scopes_v(sc@);
        let ghost oj = out@;
        match walk_source_file(sc, c, out) {
            Err(e) => {
                assert(walk(sj, cv, oj) == Walked::Failed(e));
                assert(children_pass(si, nv, i as int, oi) == Walked::Failed(e));
                return Err(e);
            },
            Ok(()) => {},
        }
        i += 1;
    }
    if n.new_scope {
        let ghost before = scopes_v(sc@);
        let _ = sc.pop();
        assert(scopes_v(sc@) =~= before.drop_last());
    }
    Ok(())
}

/// Binds every variable of a source file to the declaration of its name:
/// the pairs of variable and declaration in the order met, or the first
/// error.
pub fn resolve_variables(root: &ScopeNode) -> (r: Result<Vec<(Node, Node)>, Error>)
    ensures
        match spec_resolve(root.view_node()) {
            Walked::Done(_, o) => r matches Ok(v) && v@ == o,
            Walked::Failed(e) => r matches Err(x) && x == e,
            Walked::Panics => false,
        },
{
    let mut sc: ScopeStack = Vec::new();
    sc.push(Vec::new());
    assert(map_v(Seq::<(Vec<u8>, Node)>::empty()) =~= seq![]);
    assert(scopes_v(sc@) =~= seq![seq![]]);
    let mut out: Vec<(Node, Node)> = Vec::new();
    match walk_source_file(&mut sc, root, &mut out) {
        Ok(()) => Ok(out),
        Err(e) => Err(e),
    }
}

/// The first procedure, in the order given, whose name an earlier one
/// already has.
pub open spec fn first_redefinition(procs: Seq<(Seq<u8>, Span)>, i: int) -> Option<int>
    decreases procs.len() - i,
{
    if i < 0 || i >= procs.len() {
        None
    } else if exists|j: int| 0 <= j < i && #[trigger] procs[j].0 == procs[i].0 {
        Some(i)
    } else {
        first_redefinition(procs, i + 1)
    }
}

/// Checks that no two procedures have the same name; the error is at the
/// second one of the first pair met.
pub fn verify_proc_names(procs: &Vec<(Vec<u8>, Span)>) -> (r: Result<(), Error>)
    ensures
        match first_redefinition(procs@.map_values(|p: (Vec<u8>, Span)| (p.0@, p.1)), 0) {
            Some(i) => r matches Err(e) && e == (Error {
                span: procs@[i].1,
                kind: ErrorKind::Custom("Procedure redefinition"),
            }),
            None => r is Ok,
        },
{
    let ghost ps = procs@.map_values(|p: (Vec<u8>, Span)| (p.0@, p.1));
    let mut i: usize = 0;
    while i < procs.len()
        invariant
            ps == procs@.map_values(|p: (Vec<u8>, Span)| (p.0@, p.1)),
            0 <= i <= procs@.len(),
            first_redefinition(ps, 0) == first_redefinition(ps, i as int),
        decreases procs@.len() - i,
    {
        let mut j: usize = 0;
        while j < i
            invariant
                ps == procs@.map_values(|p: (Vec<u8>, Span)| (p.0@, p.1)),
                0 <= j <= i < procs@.len(),
                first_redefinition(ps, 0) == first_redefinition(ps, i as int),
                forall|k: int| 0 <= k < j ==> ps[k].0 != ps[i as int].0,
            decreases i - j,
        {
            if bytes_eq(&procs[j].0, &procs[i].0) {
                assert(ps[j as int].0 == ps[i as int].0);
                assert(first_redefinition(ps, i as int) == Some(i as int));
                return Err(procs[i].1.custom("Procedure redefinition"));
            }
            j += 1;
        }
        assert(!(exists|k: int| 0 <= k < i && #[trigger] ps[k].0 == ps[i as int].0));
        i += 1;
    }
    Ok(())
}

/// Resolution in several source files, each with scopes of its own: the
/// bindings of all files, file after file, or the error of the first file
/// that fails. (Resolution of a file never panics: see
/// `resolve_variables`.)
pub open spec fn spec_resolve_files(roots: Seq<ScopeNodeV>) -> Result<Seq<(Node, Node)>, Error>
    decreases roots.len(),
{
    if roots.len() == 0 {
        Ok(seq![])
    } else {
        match spec_resolve_files(roots.drop_last()) {
            Err(e) => Err(e),
            Ok(o) => match spec_resolve(roots.last()) {
                Walked::Failed(e) => Err(e),
                Walked::Done(_, o2) => Ok(o + o2),
                Walked::Panics => Ok(o),
            },
        }
    }
}

/// The values of the roots of several files.
pub open spec fn roots_v(roots: Seq<ScopeNode>) -> Seq<ScopeNodeV> {
    roots.map_values(|r: ScopeNode| r.view_node())
}

/// Binds the variables of every source file, file after file.
pub fn walk_source_files(roots: &Vec<ScopeNode>) -> (r: Result<Vec<(Node, Node)>, Error>)
    ensures
        match spec_resolve_files(roots_v(roots@)) {
            Ok(o) => r matches Ok(v) && v@ == o,
            Err(e) => r matches Err(x) && x == e,
        },
{
    let mut out: Vec<(Node, Node)> = Vec::new();
    let mut i: usize = 0;
    while i < roots.len()
        invariant
            0 <= i <= roots@.len(),
            spec_resolve_files(roots_v(roots@.subrange(0, i as int))) == Ok::<Seq<(Node, Node)>, Error>(
                out@,
            ),
        decreases roots@.len() - i,
    {
        assert(roots_v(roots@.subrange(0, i + 1)).drop_last() =~= roots_v(roots@.subrange(0, i as int)));
        assert(roots_v(roots@.subrange(0, i + 1)).last() == roots@[i as int].view_node());
        match resolve_variables(&roots[i]) {
            Err(e) => {
                proof {
                    lemma_resolve_files_stops(roots_v(roots@), i as int, roots@.len() as int);
                    assert(roots_v(roots@).subrange(0, i + 1) =~= roots_v(roots@.subrange(0, i + 1)));
                    assert(roots_v(roots@).subrange(0, roots@.len() as int) =~= roots_v(roots@));
                }
                return Err(e);
            },
            Ok(v) => {
                let mut k: usize = 0;
                let ghost before = out@;
                while k < v.len()
                    invariant
                        0 <= k <= v@.len(),
                        out@ == before + v@.subrange(0, k as int),
                    decreases v@.len() - k,
                {
                    out.push(v[k]);
                    k = k + 1;
                    assert(out@ =~= before + v@.subrange(0, k as int));
                }
                assert(v@.subrange(0, k as int) =~= v@);
            },
        }
        i = i + 1;
    }
    assert(roots@.subrange(0, roots@.len() as int) =~= roots@);
    Ok(out)
}

/// Once a file fails, resolution of the files up to any later one fails
/// with its error.
proof fn lemma_resolve_files_stops(roots: Seq<ScopeNodeV>, i: int, j: int)
    requires
        0 <= i < j <= roots.len(),
        spec_resolve_files(roots.subrange(0, i + 1)) is Err,
    ensures
        spec_resolve_files(roots.subrange(0, j)) == spec_resolve_files(roots.subrange(0, i + 1)),
    decreases j,
{
    if j > i + 1 {
        lemma_resolve_files_stops(roots, i, j - 1);
        assert(roots.subrange(0, j).drop_last() =~= roots.subrange(0, j - 1));
    }
}

/// Whether the variable `v` is bound to a declaration in `out`.
pub open spec fn is_bound(out: Seq<(Node, Node)>, v: Node) -> bool {
    exists|i: int| 0 <= i < out.len() && (#[trigger] out[i]).0 == v
}

/// Checks that every variable, given with its span, is bound in `bound`:
/// the first one that is not is an error.
pub fn verify_all_variables_resolved(variables: &Vec<(Node, Span)>, bound: &Vec<(Node, Node)>) -> (r: Result<
    (),
    Error,
>)
    ensures
        r is Ok <==> forall|i: int| 0 <= i < variables@.len() ==> is_bound(bound@, (#[trigger] variables@[i]).0),
        r matches Err(e) ==> exists|i: int|
            0 <= i < variables@.len() && !is_bound(bound@, (#[trigger] variables@[i]).0) && (forall|j: int|
                0 <= j < i ==> is_bound(bound@, (#[trigger] variables@[j]).0)) && e == undeclared(
                variables@[i].1,
            ),
{
    let mut i: usize = 0;
    while i < variables.len()
        invariant
            0 <= i <= variables@.len(),
            forall|j: int| 0 <= j < i ==> is_bound(bound@, (#[trigger] variables@[j]).0),
        decreases variables@.len() - i,
    {
        let v = variables[i].0;
        let mut k: usize = 0;
        let mut found = false;
        while k < bound.len()
            invariant
                0 <= k <= bound@.len(),
                found ==> is_bound(bound@, v),
                !found ==> forall|x: int| 0 <= x < k ==> (#[trigger] bound@[x]).0 != v,
            decreases bound@.len() - k,
        {
            if bound[k].0 == v {
                found = true;
                assert(bound@[k as int].0 == v);
            }
            k = k + 1;
        }
        if !found {
            return Err(variables[i].1.custom("Variable is not declared"));
        }
        i = i + 1;
    }
    Ok(())
}

} // verus!
