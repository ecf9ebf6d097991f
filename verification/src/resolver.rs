//! The scope and capture resolver: the first walk over the tree. It
//! maintains a stack of lexical scopes, pre-declares the names of each
//! block, resolves every name use to its declaration, and classifies a
//! variable as `Boxed` the moment a use crosses a function boundary —
//! filling the annotation store that the type checker and the backend
//! read.

use vstd::prelude::*;

use vstd::pervasive::unreached;
use crate::ast::{Ast, AstNode, DefKey, Index, Token, TokenView, TypedName, node_wf};
use crate::store::{AnnView, Annotations, VariableType, has_key, lookup_entries, set_add, upsert};

verus! {

/// The kind of a lexical scope: an ordinary block, or a function body
/// (the boundary that turns an outer reference into a capture).
#[derive(Clone, Copy, Debug, PartialEq, Eq, Structural)]
pub enum ScopeType {
    Block,
    Function,
}

/// One name known to a scope: its spelling, whether it is already
/// initialized, and the declaration it stands for.
#[derive(Debug)]
pub struct NameEntry {
    pub name: String,
    pub defined: bool,
    pub def: DefKey,
}

/// Mathematical image of a `NameEntry`.
pub struct NameEntryView {
    pub name: Seq<char>,
    pub defined: bool,
    pub def: DefKey,
}

impl View for NameEntry {
    type V = NameEntryView;

    open spec fn view(&self) -> NameEntryView {
        NameEntryView { name: self.name@, defined: self.defined, def: self.def }
    }
}

/// One active scope: its kind, the node id of the construct that
/// opened it, and the names declared directly in it.
#[derive(Debug)]
pub struct Scope {
    pub kind: ScopeType,
    pub id: usize,
    pub names: Vec<NameEntry>,
}

/// Mathematical image of a `Scope`.
pub struct ScopeView {
    pub kind: ScopeType,
    pub id: usize,
    pub names: Seq<NameEntryView>,
}

pub open spec fn names_view(s: Seq<NameEntry>) -> Seq<NameEntryView> {
    s.map_values(|e: NameEntry| e@)
}

impl View for Scope {
    type V = ScopeView;

    open spec fn view(&self) -> ScopeView {
        ScopeView { kind: self.kind, id: self.id, names: names_view(self.names@) }
    }
}

/// Why resolution failed.
#[derive(Clone, Copy, Debug, PartialEq, Eq, Structural)]
pub enum ResolveErrorKind {
    /// A name was used that no visible scope declares.
    NoSuchVariable,
    /// A name was read in its declaring block before its
    /// initialization, outside any nested function body.
    UseBeforeDefinition,
    /// A name was declared twice in the same scope.
    DuplicateDeclaration,
    /// A name was initialized twice in the same scope.
    DoubleDefinition,
}

/// A fatal resolution error: its kind, the offending name, and the
/// source position of the offending token.
#[derive(Debug)]
pub struct ResolveError {
    pub kind: ResolveErrorKind,
    pub name: String,
    pub position: Index,
}

/// Mathematical image of a `ResolveError`.
pub struct ResolveErrorView {
    pub kind: ResolveErrorKind,
    pub name: Seq<char>,
    pub position: Index,
}

impl View for ResolveError {
    type V = ResolveErrorView;

    open spec fn view(&self) -> ResolveErrorView {
        ResolveErrorView { kind: self.kind, name: self.name@, position: self.position }
    }
}

// ---------------------------------------------------------------
// The resolution walk, as a mathematical function.
// ---------------------------------------------------------------

/// The resolver's whole state: the scope stack and the store so far.
pub struct RState {
    pub scopes: Seq<ScopeView>,
    pub ann: AnnView,
}

/// Result of resolving one construct: success or the first error,
/// plus the state afterwards.
pub struct ROut {
    pub res: Result<(), ResolveErrorView>,
    pub st: RState,
}

/// The first entry of `names` spelled `name`, if any.
pub open spec fn find_name(names: Seq<NameEntryView>, name: Seq<char>) -> Option<NameEntryView>
    decreases names.len(),
{
    if names.len() == 0 {
        Option::None
    } else if names[0].name == name {
        Option::Some(names[0])
    } else {
        find_name(names.drop_first(), name)
    }
}

/// The index of that entry, or -1.
pub open spec fn find_name_index(names: Seq<NameEntryView>, name: Seq<char>) -> int
    decreases names.len(),
{
    if names.len() == 0 {
        -1
    } else if names[0].name == name {
        0
    } else {
        let r = find_name_index(names.drop_first(), name);
        if r < 0 {
            -1
        } else {
            r + 1
        }
    }
}

/// How `find_name` and `find_name_index` relate to the entries.
pub proof fn lemma_find_name(names: Seq<NameEntryView>, name: Seq<char>)
    ensures
        find_name_index(names, name) < 0 ==> find_name(names, name) is None,
        find_name_index(names, name) < 0 ==> forall|j: int|
            0 <= j < names.len() ==> (#[trigger] names[j]).name != name,
        find_name_index(names, name) >= 0 ==> {
            let i = find_name_index(names, name);
            &&& i < names.len()
            &&& names[i].name == name
            &&& find_name(names, name) == Option::Some(names[i])
            &&& forall|j: int| 0 <= j < i ==> (#[trigger] names[j]).name != name
        },
    decreases names.len(),
{
    if names.len() > 0 {
        let rest = names.drop_first();
        lemma_find_name(rest, name);
        if names[0].name != name {
            assert forall|j: int| 0 <= j < rest.len() implies rest[j] == names[j + 1] by {}
            let ri = find_name_index(rest, name);
            if ri < 0 {
                assert forall|j: int| 0 <= j < names.len() implies (#[trigger] names[j]).name
                    != name by {
                    if j > 0 {
                        assert(rest[j - 1] == names[j]);
                    }
                }
            } else {
                let i = find_name_index(names, name);
                assert(i == ri + 1);
                assert(rest[ri] == names[i]);
                assert forall|j: int| 0 <= j < i implies (#[trigger] names[j]).name != name by {
                    if j > 0 {
                        assert(rest[j - 1] == names[j]);
                    }
                }
            }
        }
    }
}

/// The entries recorded for a scope id (empty when none are).
pub open spec fn scope_entries(ann: AnnView, sid: usize) -> Seq<(Seq<char>, VariableType)> {
    if ann.blocks.contains_key(sid) {
        ann.blocks[sid]
    } else {
        Seq::empty()
    }
}

/// The capture set recorded for a function id (empty when none is).
pub open spec fn closure_entries(ann: AnnView, fid: usize) -> Seq<Seq<char>> {
    if ann.closures.contains_key(fid) {
        ann.closures[fid]
    } else {
        Seq::empty()
    }
}

/// Capture monotonicity between two store states: every variable the
/// first state classifies `Boxed` is still classified `Boxed` in the
/// second.
pub open spec fn boxed_monotone(a: AnnView, b: AnnView) -> bool {
    forall|sid: usize, nm: Seq<char>|
        #[trigger] lookup_entries(scope_entries(a, sid), nm) == Option::Some(VariableType::Boxed)
            ==> lookup_entries(scope_entries(b, sid), nm) == Option::Some(VariableType::Boxed)
}

/// Opens a scope: pushes it on the stack and makes sure the store has
/// a (possibly empty) entry list for it — and a capture set, for a
/// function scope.
pub open spec fn push_scope(st: RState, kind: ScopeType, sid: usize) -> RState {
    let blocks2 = if st.ann.blocks.contains_key(sid) {
        st.ann.blocks
    } else {
        st.ann.blocks.insert(sid, Seq::empty())
    };
    let closures2 = if kind is Function {
        if st.ann.closures.contains_key(sid) {
            st.ann.closures
        } else {
            st.ann.closures.insert(sid, Seq::empty())
        }
    } else {
        st.ann.closures
    };
    RState {
        scopes: st.scopes.push(ScopeView { kind, id: sid, names: Seq::empty() }),
        ann: AnnView { blocks: blocks2, closures: closures2, defs: st.ann.defs },
    }
}

/// Declares `name` in the innermost scope, `Normal` by default; a
/// second declaration in the same scope is an error. A classification
/// already recorded for the name in that scope is left as it stands
/// (a declaration never demotes an earlier `Boxed`).
pub open spec fn spec_declare(st: RState, name: TokenView, def: DefKey) -> ROut {
    if st.scopes.len() == 0 {
        ROut {
            res: Result::Err(
                ResolveErrorView {
                    kind: ResolveErrorKind::NoSuchVariable,
                    name: name.text,
                    position: name.position,
                },
            ),
            st,
        }
    } else {
        let top = st.scopes.last();
        if find_name(top.names, name.text) is Some {
            ROut {
                res: Result::Err(
                    ResolveErrorView {
                        kind: ResolveErrorKind::DuplicateDeclaration,
                        name: name.text,
                        position: name.position,
                    },
                ),
                st,
            }
        } else {
            let entry = NameEntryView { name: name.text, defined: false, def };
            let scopes2 = st.scopes.update(
                st.scopes.len() - 1,
                ScopeView { kind: top.kind, id: top.id, names: top.names.push(entry) },
            );
            let old_entries = scope_entries(st.ann, top.id);
            let entries2 = if has_key(old_entries, name.text) {
                old_entries
            } else {
                upsert(old_entries, name.text, VariableType::Normal)
            };
            ROut {
                res: Result::Ok(()),
                st: RState {
                    scopes: scopes2,
                    ann: AnnView {
                        blocks: st.ann.blocks.insert(top.id, entries2),
                        closures: st.ann.closures,
                        defs: st.ann.defs,
                    },
                },
            }
        }
    }
}

/// Marks `name` initialized in the innermost scope; initializing an
/// undeclared name or initializing twice is an error. (Defining reads
/// and writes the scope stack alone, never the store.)
pub open spec fn spec_define(scopes: Seq<ScopeView>, name: TokenView) -> (Result<
    (),
    ResolveErrorView,
>, Seq<ScopeView>) {
    if scopes.len() == 0 {
        (
            Result::Err(
                ResolveErrorView {
                    kind: ResolveErrorKind::NoSuchVariable,
                    name: name.text,
                    position: name.position,
                },
            ),
            scopes,
        )
    } else {
        let top = scopes.last();
        let i = find_name_index(top.names, name.text);
        if i < 0 {
            (
                Result::Err(
                    ResolveErrorView {
                        kind: ResolveErrorKind::NoSuchVariable,
                        name: name.text,
                        position: name.position,
                    },
                ),
                scopes,
            )
        } else if top.names[i].defined {
            (
                Result::Err(
                    ResolveErrorView {
                        kind: ResolveErrorKind::DoubleDefinition,
                        name: name.text,
                        position: name.position,
                    },
                ),
                scopes,
            )
        } else {
            let entry = NameEntryView {
                name: top.names[i].name,
                defined: true,
                def: top.names[i].def,
            };
            let scopes2 = scopes.update(
                scopes.len() - 1,
                ScopeView { kind: top.kind, id: top.id, names: top.names.update(i, entry) },
            );
            (Result::Ok(()), scopes2)
        }
    }
}

/// Outcome of the local phase of a lookup.
pub enum LocalOutcome {
    /// Found initialized before any function boundary.
    Found(DefKey),
    /// Found, but not yet initialized: a use-before-definition.
    Undefined,
    /// The stack is exhausted without a boundary: no such variable.
    Missing,
    /// The scope at this index is the nearest enclosing function
    /// boundary, and the name is not declared at or above it.
    Boundary(int),
}

/// The local search: scan from the innermost scope down to (and
/// including) the nearest function scope.
pub open spec fn local_find(scopes: Seq<ScopeView>, name: Seq<char>, j: int) -> LocalOutcome
    decreases j + 1,
{
    if j < 0 {
        LocalOutcome::Missing
    } else {
        let sc = scopes[j];
        match find_name(sc.names, name) {
            Option::Some(e) => if e.defined {
                LocalOutcome::Found(e.def)
            } else {
                LocalOutcome::Undefined
            },
            Option::None => if sc.kind is Function {
                LocalOutcome::Boundary(j)
            } else {
                local_find(scopes, name, j - 1)
            },
        }
    }
}

/// The outer search, past the function boundary: the innermost scope
/// below `j` declaring the name (with its entry's declaration), and
/// the ids of the function scopes passed strictly before it, in
/// inner-to-outer order.
pub open spec fn outer_find(scopes: Seq<ScopeView>, name: Seq<char>, j: int) -> (Option<
    (int, DefKey),
>, Seq<usize>)
    decreases j + 1,
{
    if j < 0 {
        (Option::None, Seq::empty())
    } else {
        let sc = scopes[j];
        match find_name(sc.names, name) {
            Option::Some(e) => (Option::Some((j, e.def)), Seq::empty()),
            Option::None => {
                let rec = outer_find(scopes, name, j - 1);
                if sc.kind is Function {
                    (rec.0, seq![sc.id] + rec.1)
                } else {
                    rec
                }
            },
        }
    }
}

/// Adds a captured name to the capture sets of the given functions.
pub open spec fn add_closures(ann: AnnView, fnids: Seq<usize>, nm: Seq<char>) -> AnnView
    decreases fnids.len(),
{
    if fnids.len() == 0 {
        ann
    } else {
        let fid = fnids[0];
        let ann2 = AnnView {
            blocks: ann.blocks,
            closures: ann.closures.insert(fid, set_add(closure_entries(ann, fid), nm)),
            defs: ann.defs,
        };
        add_closures(ann2, fnids.drop_first(), nm)
    }
}

/// Resolves one use of `name` (a name expression or an assignment
/// target, keyed by the node id `use_id`): local search first; past
/// the nearest function boundary, a hit is a capture — the variable is
/// classified `Boxed` at its declaring scope, and the name is added to
/// the capture set of every function scope between the use and the
/// declaration, innermost first.
pub open spec fn spec_lookup(st: RState, use_id: usize, name: TokenView) -> ROut {
    match local_find(st.scopes, name.text, st.scopes.len() - 1) {
        LocalOutcome::Found(def) => ROut {
            res: Result::Ok(()),
            st: RState {
                scopes: st.scopes,
                ann: AnnView {
                    blocks: st.ann.blocks,
                    closures: st.ann.closures,
                    defs: st.ann.defs.insert(use_id, def),
                },
            },
        },
        LocalOutcome::Undefined => ROut {
            res: Result::Err(
                ResolveErrorView {
                    kind: ResolveErrorKind::UseBeforeDefinition,
                    name: name.text,
                    position: name.position,
                },
            ),
            st,
        },
        LocalOutcome::Missing => ROut {
            res: Result::Err(
                ResolveErrorView {
                    kind: ResolveErrorKind::NoSuchVariable,
                    name: name.text,
                    position: name.position,
                },
            ),
            st,
        },
        LocalOutcome::Boundary(b) => {
            let of = outer_find(st.scopes, name.text, b - 1);
            match of.0 {
                Option::None => ROut {
                    res: Result::Err(
                        ResolveErrorView {
                            kind: ResolveErrorKind::NoSuchVariable,
                            name: name.text,
                            position: name.position,
                        },
                    ),
                    st,
                },
                Option::Some(hit) => {
                    let dsid = st.scopes[hit.0].id;
                    let ann1 = AnnView {
                        blocks: st.ann.blocks.insert(
                            dsid,
                            upsert(scope_entries(st.ann, dsid), name.text, VariableType::Boxed),
                        ),
                        closures: st.ann.closures,
                        defs: st.ann.defs,
                    };
                    let fnids = seq![st.scopes[b].id] + of.1;
                    let ann2 = add_closures(ann1, fnids, name.text);
                    ROut {
                        res: Result::Ok(()),
                        st: RState {
                            scopes: st.scopes,
                            ann: AnnView {
                                blocks: ann2.blocks,
                                closures: ann2.closures,
                                defs: ann2.defs.insert(use_id, hit.1),
                            },
                        },
                    }
                },
            }
        },
    }
}

/// Declares and immediately defines every parameter (and the vararg)
/// of a function scope, under their declaration slots.
pub open spec fn spec_declare_params(
    st: RState,
    fid: usize,
    args: Seq<TypedName>,
    vararg: Option<TypedName>,
    i: int,
) -> ROut
    decreases args.len() - i,
{
    if i < 0 || i >= args.len() {
        match vararg {
            Option::Some(tn) => {
                let d = spec_declare(
                    st,
                    tn.name@,
                    DefKey { node: fid, slot: (args.len() + 1) as usize },
                );
                match d.res {
                    Result::Err(e) => d,
                    Result::Ok(_) => {
                        let f = spec_define(d.st.scopes, tn.name@);
                        ROut {
                            res: f.0,
                            st: RState { scopes: f.1, ann: d.st.ann },
                        }
                    },
                }
            },
            Option::None => ROut { res: Result::Ok(()), st },
        }
    } else {
        let d = spec_declare(st, args[i].name@, DefKey { node: fid, slot: (i + 1) as usize });
        match d.res {
            Result::Err(e) => d,
            Result::Ok(_) => {
                let f = spec_define(d.st.scopes, args[i].name@);
                match f.0 {
                    Result::Err(e) => ROut {
                        res: Result::Err(e),
                        st: RState { scopes: f.1, ann: d.st.ann },
                    },
                    Result::Ok(_) => spec_declare_params(
                        RState { scopes: f.1, ann: d.st.ann },
                        fid,
                        args,
                        vararg,
                        i + 1,
                    ),
                }
            },
        }
    }
}

/// The block pre-declaration pass: declares, uninitialized, every name
/// a `var` or function declaration introduces textually in the block,
/// before any statement body is visited.
pub open spec fn spec_rpredef(ast: Ast, st: RState, stmts: Seq<usize>, i: int) -> ROut
    decreases stmts.len() - i,
{
    if i < 0 || i >= stmts.len() {
        ROut { res: Result::Ok(()), st }
    } else {
        let sid = stmts[i];
        match ast.nodes@[sid as int] {
            AstNode::VarDeclaration { name, .. } => {
                let d = spec_declare(st, name.name@, DefKey { node: sid, slot: 0 });
                match d.res {
                    Result::Err(e) => d,
                    Result::Ok(_) => spec_rpredef(ast, d.st, stmts, i + 1),
                }
            },
            AstNode::FunctionDeclaration { name, .. } => {
                let d = spec_declare(st, name@, DefKey { node: sid, slot: 0 });
                match d.res {
                    Result::Err(e) => d,
                    Result::Ok(_) => spec_rpredef(ast, d.st, stmts, i + 1),
                }
            },
            _ => spec_rpredef(ast, st, stmts, i + 1),
        }
    }
}

/// Resolves one expression node.
pub open spec fn spec_resolve_expr(ast: Ast, st: RState, id: usize) -> ROut
    decreases id, 2int, 0int,
    when crate::typechecker::node_children_bounded(ast, id)
{
    match ast.nodes@[id as int] {
        AstNode::NumberLiteral(_) => ROut { res: Result::Ok(()), st },
        AstNode::FloatLiteral(_) => ROut { res: Result::Ok(()), st },
        AstNode::BoolLiteral(_) => ROut { res: Result::Ok(()), st },
        AstNode::StringLiteral(_) => ROut { res: Result::Ok(()), st },
        AstNode::Name(t) => spec_lookup(st, id, t@),
        AstNode::Binary { left, right, .. } => {
            let lo = spec_resolve_expr(ast, st, left);
            match lo.res {
                Result::Err(e) => lo,
                Result::Ok(_) => spec_resolve_expr(ast, lo.st, right),
            }
        },
        AstNode::Unary { operand, .. } => spec_resolve_expr(ast, st, operand),
        AstNode::Cond { condition, then_branch, else_branch } => {
            let co = spec_resolve_expr(ast, st, condition);
            match co.res {
                Result::Err(e) => co,
                Result::Ok(_) => {
                    let to = spec_resolve_expr(ast, co.st, then_branch);
                    match to.res {
                        Result::Err(e) => to,
                        Result::Ok(_) => match else_branch {
                            Option::Some(eb) => spec_resolve_expr(ast, to.st, eb),
                            Option::None => to,
                        },
                    }
                },
            }
        },
        AstNode::Block { statements, .. } => {
            let st1 = push_scope(st, ScopeType::Block, id);
            let po = spec_rpredef(ast, st1, statements@, 0);
            match po.res {
                Result::Err(e) => po,
                Result::Ok(_) => {
                    let so = spec_resolve_stmts(ast, po.st, id, statements@, 0);
                    match so.res {
                        Result::Err(e) => so,
                        Result::Ok(_) => ROut {
                            res: Result::Ok(()),
                            st: RState {
                                scopes: so.st.scopes.drop_last(),
                                ann: so.st.ann,
                            },
                        },
                    }
                },
            }
        },
        AstNode::SingleStatement(s) => spec_resolve_stmt(ast, st, s),
        AstNode::Call { target, arguments } => {
            let to = spec_resolve_expr(ast, st, target);
            match to.res {
                Result::Err(e) => to,
                Result::Ok(_) => spec_resolve_exprs(ast, to.st, id, arguments@, 0),
            }
        },
        AstNode::PartialCall { target, arguments } => {
            let to = spec_resolve_expr(ast, st, target);
            match to.res {
                Result::Err(e) => to,
                Result::Ok(_) => spec_resolve_opt_exprs(ast, to.st, id, arguments@, 0),
            }
        },
        AstNode::AnonFunction { arguments, vararg, body, .. } => {
            let st1 = push_scope(st, ScopeType::Function, id);
            let po = spec_declare_params(st1, id, arguments@, vararg, 0);
            match po.res {
                Result::Err(e) => po,
                Result::Ok(_) => {
                    let bo = spec_resolve_expr(ast, po.st, body);
                    match bo.res {
                        Result::Err(e) => bo,
                        Result::Ok(_) => ROut {
                            res: Result::Ok(()),
                            st: RState {
                                scopes: bo.st.scopes.drop_last(),
                                ann: bo.st.ann,
                            },
                        },
                    }
                },
            }
        },
        AstNode::PropertyAccess { target, .. } => spec_resolve_expr(ast, st, target),
        AstNode::PropertyCheck { target, .. } => spec_resolve_expr(ast, st, target),
        _ => ROut { res: Result::Ok(()), st },
    }
}

/// Resolves one statement node.
pub open spec fn spec_resolve_stmt(ast: Ast, st: RState, id: usize) -> ROut
    decreases id, 2int, 0int,
    when crate::typechecker::node_children_bounded(ast, id)
{
    match ast.nodes@[id as int] {
        AstNode::VarDeclaration { name, value } => {
            let vo = match value {
                Option::Some(v) => spec_resolve_expr(ast, st, v),
                Option::None => ROut { res: Result::Ok(()), st },
            };
            match vo.res {
                Result::Err(e) => vo,
                Result::Ok(_) => {
                    let f = spec_define(vo.st.scopes, name.name@);
                    ROut { res: f.0, st: RState { scopes: f.1, ann: vo.st.ann } }
                },
            }
        },
        AstNode::Assignment { target, value } => {
            let lo = spec_lookup(st, id, target@);
            match lo.res {
                Result::Err(e) => lo,
                Result::Ok(_) => spec_resolve_expr(ast, lo.st, value),
            }
        },
        AstNode::Expression(e) => spec_resolve_expr(ast, st, e),
        AstNode::Assert { value, .. } => spec_resolve_expr(ast, st, value),
        AstNode::Pass { .. } => ROut { res: Result::Ok(()), st },
        AstNode::FunctionDeclaration { name, arguments, vararg, body, .. } => {
            let st1 = push_scope(st, ScopeType::Function, id);
            let dn = spec_declare(st1, name@, DefKey { node: id, slot: 0 });
            match dn.res {
                Result::Err(e) => dn,
                Result::Ok(_) => {
                    let fo = spec_define(dn.st.scopes, name@);
                    match fo.0 {
                        Result::Err(e) => ROut {
                            res: Result::Err(e),
                            st: RState { scopes: fo.1, ann: dn.st.ann },
                        },
                        Result::Ok(_) => {
                            let po = spec_declare_params(
                                RState { scopes: fo.1, ann: dn.st.ann },
                                id,
                                arguments@,
                                vararg,
                                0,
                            );
                            match po.res {
                                Result::Err(e) => po,
                                Result::Ok(_) => {
                                    let bo = spec_resolve_expr(ast, po.st, body);
                                    match bo.res {
                                        Result::Err(e) => bo,
                                        Result::Ok(_) => {
                                            let f = spec_define(
                                                bo.st.scopes.drop_last(),
                                                name@,
                                            );
                                            ROut {
                                                res: f.0,
                                                st: RState { scopes: f.1, ann: bo.st.ann },
                                            }
                                        },
                                    }
                                },
                            }
                        },
                    }
                },
            }
        },
        AstNode::StructDeclaration { .. } => ROut { res: Result::Ok(()), st },
        AstNode::EnumDeclaration { .. } => ROut { res: Result::Ok(()), st },
        AstNode::Import { .. } => ROut { res: Result::Ok(()), st },
        AstNode::ImplBlock { .. } => ROut { res: Result::Ok(()), st },
        AstNode::PropertyAssignment { target, value } => {
            let to = spec_resolve_expr(ast, st, target);
            match to.res {
                Result::Err(e) => to,
                Result::Ok(_) => spec_resolve_expr(ast, to.st, value),
            }
        },
        _ => ROut { res: Result::Ok(()), st },
    }
}

/// Resolves a statement list in order.
pub open spec fn spec_resolve_stmts(
    ast: Ast,
    st: RState,
    pid: usize,
    stmts: Seq<usize>,
    i: int,
) -> ROut
    decreases pid, 1int, stmts.len() - i,
    when forall|j: int| 0 <= j < stmts.len() ==> (#[trigger] stmts[j]) < pid
{
    if i < 0 || i >= stmts.len() {
        ROut { res: Result::Ok(()), st }
    } else {
        let so = spec_resolve_stmt(ast, st, stmts[i]);
        match so.res {
            Result::Err(e) => so,
            Result::Ok(_) => spec_resolve_stmts(ast, so.st, pid, stmts, i + 1),
        }
    }
}

/// Resolves an expression list in order.
pub open spec fn spec_resolve_exprs(
    ast: Ast,
    st: RState,
    pid: usize,
    ids: Seq<usize>,
    i: int,
) -> ROut
    decreases pid, 1int, ids.len() - i,
    when forall|j: int| 0 <= j < ids.len() ==> (#[trigger] ids[j]) < pid
{
    if i < 0 || i >= ids.len() {
        ROut { res: Result::Ok(()), st }
    } else {
        let eo = spec_resolve_expr(ast, st, ids[i]);
        match eo.res {
            Result::Err(e) => eo,
            Result::Ok(_) => spec_resolve_exprs(ast, eo.st, pid, ids, i + 1),
        }
    }
}

/// Resolves the present arguments of a partial call in order.
pub open spec fn spec_resolve_opt_exprs(
    ast: Ast,
    st: RState,
    pid: usize,
    ids: Seq<Option<usize>>,
    i: int,
) -> ROut
    decreases pid, 1int, ids.len() - i,
    when forall|j: int| 0 <= j < ids.len() ==> (match #[trigger] ids[j] {
        Option::Some(a) => a < pid,
        Option::None => true,
    })
{
    if i < 0 || i >= ids.len() {
        ROut { res: Result::Ok(()), st }
    } else {
        match ids[i] {
            Option::Some(a) => {
                let eo = spec_resolve_expr(ast, st, a);
                match eo.res {
                    Result::Err(e) => eo,
                    Result::Ok(_) => spec_resolve_opt_exprs(ast, eo.st, pid, ids, i + 1),
                }
            },
            Option::None => spec_resolve_opt_exprs(ast, st, pid, ids, i + 1),
        }
    }
}

/// The whole pass: resolve the program block against an initial
/// store.
pub open spec fn spec_generate(ast: Ast, ann0: AnnView) -> ROut {
    spec_resolve_expr(ast, RState { scopes: Seq::empty(), ann: ann0 }, ast.root)
}


// ---------------------------------------------------------------
// Facts about capture monotonicity.
// ---------------------------------------------------------------

/// Identical scope tables are trivially monotone.
proof fn lemma_bm_same_blocks(a: AnnView, b: AnnView)
    requires
        a.blocks == b.blocks,
    ensures
        boxed_monotone(a, b),
{
}

/// Monotonicity composes.
proof fn lemma_bm_trans(a: AnnView, b: AnnView, c: AnnView)
    requires
        boxed_monotone(a, b),
        boxed_monotone(b, c),
    ensures
        boxed_monotone(a, c),
{
    assert forall|sid: usize, nm: Seq<char>|
        #[trigger] lookup_entries(scope_entries(a, sid), nm) == Option::Some(
            VariableType::Boxed,
        ) implies lookup_entries(scope_entries(c, sid), nm) == Option::Some(
        VariableType::Boxed,
    ) by {
        assert(lookup_entries(scope_entries(b, sid), nm) == Option::Some(VariableType::Boxed));
    }
}

/// Re-inserting a scope's own entry list changes nothing.
proof fn lemma_bm_keep_entry(a: AnnView, b: AnnView, id: usize)
    requires
        b.blocks == a.blocks.insert(id, scope_entries(a, id)),
    ensures
        boxed_monotone(a, b),
{
    assert forall|sid: usize, nm: Seq<char>|
        #[trigger] lookup_entries(scope_entries(a, sid), nm) == Option::Some(
            VariableType::Boxed,
        ) implies lookup_entries(scope_entries(b, sid), nm) == Option::Some(
        VariableType::Boxed,
    ) by {
        assert(scope_entries(b, sid) == scope_entries(a, sid));
    }
}

/// Creating an empty entry list for a fresh scope changes no binding.
proof fn lemma_bm_fresh_empty(a: AnnView, b: AnnView, id: usize)
    requires
        !a.blocks.contains_key(id),
        b.blocks == a.blocks.insert(id, Seq::<(Seq<char>, VariableType)>::empty()),
    ensures
        boxed_monotone(a, b),
{
    assert forall|sid: usize, nm: Seq<char>|
        #[trigger] lookup_entries(scope_entries(a, sid), nm) == Option::Some(
            VariableType::Boxed,
        ) implies lookup_entries(scope_entries(b, sid), nm) == Option::Some(
        VariableType::Boxed,
    ) by {
        if sid == id {
            assert(!has_key(scope_entries(a, sid), nm));
        } else {
            assert(scope_entries(b, sid) == scope_entries(a, sid));
        }
    }
}

/// An upsert that sets `Boxed`, or sets any value under a name with no
/// prior `Boxed` binding, keeps every `Boxed` classification.
proof fn lemma_bm_set_entry(a: AnnView, b: AnnView, id: usize, nm: Seq<char>, v: VariableType)
    requires
        crate::assoc::kv_distinct(scope_entries(a, id)),
        b.blocks == a.blocks.insert(id, upsert(scope_entries(a, id), nm, v)),
        v == VariableType::Boxed || lookup_entries(scope_entries(a, id), nm) != Option::Some(
            VariableType::Boxed,
        ),
    ensures
        boxed_monotone(a, b),
{
    assert forall|sid: usize, q: Seq<char>|
        #[trigger] lookup_entries(scope_entries(a, sid), q) == Option::Some(
            VariableType::Boxed,
        ) implies lookup_entries(scope_entries(b, sid), q) == Option::Some(
        VariableType::Boxed,
    ) by {
        if sid == id {
            crate::store::lemma_lookup_upsert(scope_entries(a, id), nm, v, q);
        } else {
            assert(scope_entries(b, sid) == scope_entries(a, sid));
        }
    }
}

/// `add_closures` touches only the capture sets.
proof fn lemma_add_closures_frame(ann: AnnView, fnids: Seq<usize>, nm: Seq<char>)
    ensures
        add_closures(ann, fnids, nm).blocks == ann.blocks,
        add_closures(ann, fnids, nm).defs == ann.defs,
    decreases fnids.len(),
{
    if fnids.len() > 0 {
        let fid = fnids[0];
        let ann2 = AnnView {
            blocks: ann.blocks,
            closures: ann.closures.insert(fid, set_add(closure_entries(ann, fid), nm)),
            defs: ann.defs,
        };
        lemma_add_closures_frame(ann2, fnids.drop_first(), nm);
    }
}

// ---------------------------------------------------------------
// The resolver itself.
// ---------------------------------------------------------------

/// Every active scope has its entry list (and, for a function scope,
/// its capture set) present in the store.
pub open spec fn scopes_in_store(scopes: Seq<ScopeView>, ann: AnnView) -> bool {
    forall|i: int|
        0 <= i < scopes.len() ==> ann.blocks.contains_key((#[trigger] scopes[i]).id) && (
        scopes[i].kind is Function ==> ann.closures.contains_key(scopes[i].id))
}

/// The first pass. It owns the scope stack and writes the annotation
/// store handed to `generate_annotations`.
pub struct AnnotationGenerator {
    pub scopes: Vec<Scope>,
}

impl View for AnnotationGenerator {
    type V = Seq<ScopeView>;

    open spec fn view(&self) -> Seq<ScopeView> {
        self.scopes@.map_values(|s: Scope| s@)
    }
}

/// The first entry of `names` spelled `text`, as an index.
fn find_entry(names: &Vec<NameEntry>, text: &String) -> (r: Option<usize>)
    ensures
        (match r {
            Option::Some(i) => i < names@.len() && find_name_index(names_view(names@), text@)
                == i,
            Option::None => find_name_index(names_view(names@), text@) < 0,
        }),
{
    proof {
        lemma_find_name(names_view(names@), text@);
    }
    let mut i: usize = 0;
    while i < names.len()
        invariant
            i <= names@.len(),
            forall|j: int| 0 <= j < i ==> (#[trigger] names_view(names@)[j]).name != text@,
        decreases names@.len() - i,
    {
        if names[i].name == *text {
            proof {
                assert(names_view(names@)[i as int].name == text@);
                lemma_find_name(names_view(names@), text@);
                let fi = find_name_index(names_view(names@), text@);
                if fi < 0 {
                } else {
                    if fi < i {
                        assert(names_view(names@)[fi].name != text@);
                    }
                    if fi > i {
                        assert(names_view(names@)[i as int].name != text@);
                    }
                }
            }
            return Option::Some(i);
        }
        i = i + 1;
    }
    proof {
        lemma_find_name(names_view(names@), text@);
        let fi = find_name_index(names_view(names@), text@);
        if fi >= 0 {
            assert(names_view(names@)[fi].name != text@);
        }
    }
    Option::None
}

impl AnnotationGenerator {
    /// Opens a scope; see `push_scope`.
    fn new_scope(&mut self, store: &mut Annotations, kind: ScopeType, id: usize)
        requires
            old(store).wf(),
            scopes_in_store(old(self)@, old(store)@),
        ensures
            final(store).wf(),
            scopes_in_store(final(self)@, final(store)@),
            boxed_monotone(old(store)@, final(store)@),
            ({
                let st2 = push_scope(
                    RState { scopes: old(self)@, ann: old(store)@ },
                    kind,
                    id,
                );
                final(self)@ == st2.scopes && final(store)@ == st2.ann
            }),
    {
        let ghost ann0 = store@;
        self.scopes.push(Scope { kind, id, names: Vec::new() });
        proof {
            assert(names_view(Seq::<NameEntry>::empty()) =~= Seq::<NameEntryView>::empty());
            assert(self@ =~= old(self)@.push(
                ScopeView { kind, id, names: Seq::<NameEntryView>::empty() },
            ));
        }
        store.ensure_block_scope(id);
        proof {
            if ann0.blocks.contains_key(id) {
                assert(store@.blocks =~= ann0.blocks);
                lemma_bm_same_blocks(ann0, store@);
            } else {
                lemma_bm_fresh_empty(ann0, store@, id);
            }
        }
        let ghost ann1 = store@;
        if kind == ScopeType::Function {
            store.ensure_closure_scope(id);
            proof {
                lemma_bm_same_blocks(ann1, store@);
                lemma_bm_trans(ann0, ann1, store@);
            }
        }
        proof {
            let st2 = push_scope(RState { scopes: old(self)@, ann: ann0 }, kind, id);
            if kind == ScopeType::Function {
            } else {
                assert(store@.closures == st2.ann.closures);
            }
            assert(store@.blocks =~= st2.ann.blocks);
            assert(store@.closures =~= st2.ann.closures);
        }
    }

    /// Closes the innermost scope.
    fn pop_scope(&mut self)
        requires
            old(self)@.len() > 0,
        ensures
            final(self)@ == old(self)@.drop_last(),
    {
        self.scopes.pop();
        proof {
            assert(self@ =~= old(self)@.drop_last());
        }
    }

    /// The node id of the innermost scope.
    fn current_block(&self) -> (r: usize)
        requires
            self@.len() > 0,
        ensures
            r == self@.last().id,
    {
        self.scopes[self.scopes.len() - 1].id
    }

    /// Declares a name in the innermost scope; see `spec_declare`.
    fn declare_name(&mut self, store: &mut Annotations, name: &Token, def: DefKey) -> (r: Result<
        (),
        ResolveError,
    >)
        requires
            old(self)@.len() > 0,
            old(store).wf(),
            scopes_in_store(old(self)@, old(store)@),
        ensures
            final(store).wf(),
            scopes_in_store(final(self)@, final(store)@),
            boxed_monotone(old(store)@, final(store)@),
            final(self)@.len() == old(self)@.len(),
            ({
                let out = spec_declare(RState { scopes: old(self)@, ann: old(store)@ }, name@, def);
                final(self)@ == out.st.scopes && final(store)@ == out.st.ann && (match r {
                    Result::Ok(_) => out.res is Ok,
                    Result::Err(e) => out.res matches Result::Err(ev) && e@ == ev,
                })
            }),
    {
        proof {
            crate::store::lemma_wf_view_wf(*store);
        }
        let top = self.scopes.len() - 1;
        let sid = self.current_block();
        match find_entry(&self.scopes[top].names, &name.text) {
            Option::Some(_) => {
                proof {
                    lemma_find_name(names_view(self.scopes@[top as int].names@), name.text@);
                    lemma_bm_same_blocks(store@, store@);
                }
                Result::Err(
                    ResolveError {
                        kind: ResolveErrorKind::DuplicateDeclaration,
                        name: name.text.clone(),
                        position: name.position,
                    },
                )
            },
            Option::None => {
                proof {
                    lemma_find_name(names_view(self.scopes@[top as int].names@), name.text@);
                }
                let entry = NameEntry { name: name.text.clone(), defined: false, def };
                let ghost old_scope_names = names_view(self.scopes@[top as int].names@);
                let slot = &mut self.scopes[top];
                slot.names.push(entry);
                proof {
                    assert(names_view(self.scopes@[top as int].names@) =~= old_scope_names.push(
                        NameEntryView { name: name.text@, defined: false, def },
                    ));
                    assert(self@ =~= old(self)@.update(
                        top as int,
                        ScopeView {
                            kind: old(self)@[top as int].kind,
                            id: old(self)@[top as int].id,
                            names: old_scope_names.push(
                                NameEntryView { name: name.text@, defined: false, def },
                            ),
                        },
                    ));
                }
                let ghost ann0 = store@;
                store.declare_block_var(sid, name.text.clone());
                proof {
                    if has_key(scope_entries(ann0, sid), name.text@) {
                        assert(store@.blocks =~= ann0.blocks.insert(
                            sid,
                            scope_entries(ann0, sid),
                        ));
                        lemma_bm_keep_entry(ann0, store@, sid);
                    } else {
                        lemma_bm_set_entry(ann0, store@, sid, name.text@, VariableType::Normal);
                    }
                    let out = spec_declare(
                        RState { scopes: old(self)@, ann: ann0 },
                        name@,
                        def,
                    );
                    assert(store@.blocks =~= out.st.ann.blocks);
                }
                Result::Ok(())
            },
        }
    }

    /// Marks a name initialized in the innermost scope; see
    /// `spec_define`.
    fn define_name(&mut self, name: &Token) -> (r: Result<(), ResolveError>)
        requires
            old(self)@.len() > 0,
        ensures
            final(self)@.len() == old(self)@.len(),
            ({
                let out = spec_define(old(self)@, name@);
                final(self)@ == out.1 && (match r {
                    Result::Ok(_) => out.0 is Ok,
                    Result::Err(e) => out.0 matches Result::Err(ev) && e@ == ev,
                })
            }),
    {
        let top = self.scopes.len() - 1;
        match find_entry(&self.scopes[top].names, &name.text) {
            Option::None => {
                proof {
                    lemma_find_name(names_view(self.scopes@[top as int].names@), name.text@);
                }
                Result::Err(
                    ResolveError {
                        kind: ResolveErrorKind::NoSuchVariable,
                        name: name.text.clone(),
                        position: name.position,
                    },
                )
            },
            Option::Some(i) => {
                proof {
                    lemma_find_name(names_view(self.scopes@[top as int].names@), name.text@);
                }
                if self.scopes[top].names[i].defined {
                    Result::Err(
                        ResolveError {
                            kind: ResolveErrorKind::DoubleDefinition,
                            name: name.text.clone(),
                            position: name.position,
                        },
                    )
                } else {
                    let ghost old_scope_names = names_view(self.scopes@[top as int].names@);
                    let nm_clone = self.scopes[top].names[i].name.clone();
                    let dk = self.scopes[top].names[i].def;
                    let slot = &mut self.scopes[top];
                    let slot2 = &mut slot.names[i];
                    *slot2 = NameEntry { name: nm_clone, defined: true, def: dk };
                    proof {
                        assert(names_view(self.scopes@[top as int].names@)
                            =~= old_scope_names.update(
                            i as int,
                            NameEntryView {
                                name: old_scope_names[i as int].name,
                                defined: true,
                                def: old_scope_names[i as int].def,
                            },
                        ));
                        assert(self@ =~= old(self)@.update(
                            top as int,
                            ScopeView {
                                kind: old(self)@[top as int].kind,
                                id: old(self)@[top as int].id,
                                names: old_scope_names.update(
                                    i as int,
                                    NameEntryView {
                                        name: old_scope_names[i as int].name,
                                        defined: true,
                                        def: old_scope_names[i as int].def,
                                    },
                                ),
                            },
                        ));
                    }
                    Result::Ok(())
                }
            },
        }
    }
}


impl AnnotationGenerator {
    /// Resolves one use of a name; see `spec_lookup`.
    #[verifier::loop_isolation(false)]
    fn lookup_name(&self, store: &mut Annotations, use_id: usize, name: &Token) -> (r: Result<
        (),
        ResolveError,
    >)
        requires
            old(store).wf(),
            scopes_in_store(self@, old(store)@),
        ensures
            final(store).wf(),
            scopes_in_store(self@, final(store)@),
            boxed_monotone(old(store)@, final(store)@),
            ({
                let out = spec_lookup(
                    RState { scopes: self@, ann: old(store)@ },
                    use_id,
                    name@,
                );
                final(store)@ == out.st.ann && (match r {
                    Result::Ok(_) => out.res is Ok,
                    Result::Err(e) => out.res matches Result::Err(ev) && e@ == ev,
                })
            }),
    {
        let ghost sv = self@;
        let ghost nm = name.text@;
        let mut j: usize = self.scopes.len();
        while j > 0
            invariant
                j <= self.scopes@.len(),
                local_find(sv, nm, sv.len() - 1) == local_find(sv, nm, j as int - 1),
                *store == *old(store),
            decreases j,
        {
            j = j - 1;
            let sc_kind = self.scopes[j].kind;
            match find_entry(&self.scopes[j].names, &name.text) {
                Option::Some(ei) => {
                    proof {
                        lemma_find_name(sv[j as int].names, nm);
                    }
                    if self.scopes[j].names[ei].defined {
                        let def = self.scopes[j].names[ei].def;
                        store.set_definition(use_id, def);
                        proof {
                            lemma_bm_same_blocks(old(store)@, store@);
                        }
                        return Result::Ok(());
                    } else {
                        proof {
                            lemma_bm_same_blocks(old(store)@, store@);
                        }
                        return Result::Err(
                            ResolveError {
                                kind: ResolveErrorKind::UseBeforeDefinition,
                                name: name.text.clone(),
                                position: name.position,
                            },
                        );
                    }
                },
                Option::None => {
                    proof {
                        lemma_find_name(sv[j as int].names, nm);
                    }
                    if sc_kind == ScopeType::Function {
                        let bid = self.scopes[j].id;
                        let ghost b = j as int;
                        let mut pending: Vec<usize> = Vec::new();
                        pending.push(bid);
                        let mut j2: usize = j;
                        proof {
                            assert(local_find(sv, nm, sv.len() - 1) == LocalOutcome::Boundary(b));
                            assert(seq![sv[b].id] + outer_find(sv, nm, b - 1).1 =~= pending@
                                + outer_find(sv, nm, j2 as int - 1).1);
                        }
                        while j2 > 0
                            invariant
                                j2 <= b,
                                outer_find(sv, nm, b - 1).0 == outer_find(
                                    sv,
                                    nm,
                                    j2 as int - 1,
                                ).0,
                                seq![sv[b].id] + outer_find(sv, nm, b - 1).1 == pending@
                                    + outer_find(sv, nm, j2 as int - 1).1,
                                forall|k: int|
                                    0 <= k < pending@.len() ==> exists|x: int|
                                        0 <= x < sv.len() && (#[trigger] sv[x].id)
                                            == #[trigger] pending@[k] && sv[x].kind is Function,
                                *store == *old(store),
                            decreases j2,
                        {
                            j2 = j2 - 1;
                            let sc2_kind = self.scopes[j2].kind;
                            match find_entry(&self.scopes[j2].names, &name.text) {
                                Option::Some(ei2) => {
                                    proof {
                                        lemma_find_name(sv[j2 as int].names, nm);
                                        crate::store::lemma_wf_view_wf(*store);
                                    }
                                    let dsid = self.scopes[j2].id;
                                    let def = self.scopes[j2].names[ei2].def;
                                    let ghost ann0 = store@;
                                    store.set_block_var(
                                        dsid,
                                        name.text.clone(),
                                        VariableType::Boxed,
                                    );
                                    proof {
                                        lemma_bm_set_entry(
                                            ann0,
                                            store@,
                                            dsid,
                                            nm,
                                            VariableType::Boxed,
                                        );
                                    }
                                    let ghost ann1 = store@;
                                    let ghost fnids = pending@;
                                    proof {
                                        assert(fnids.skip(0) =~= fnids);
                                    }
                                    let mut k: usize = 0;
                                    while k < pending.len()
                                        invariant
                                            k <= pending@.len(),
                                            fnids == pending@,
                                            add_closures(ann1, fnids, nm) == add_closures(
                                                store@,
                                                fnids.skip(k as int),
                                                nm,
                                            ),
                                            store@.blocks == ann1.blocks,
                                            store@.defs == ann1.defs,
                                            store.wf(),
                                            scopes_in_store(sv, store@),
                                        decreases pending@.len() - k,
                                    {
                                        proof {
                                            let kk = k as int;
                                            assert(exists|x: int|
                                                0 <= x < sv.len() && (#[trigger] sv[x].id)
                                                    == pending@[kk] && sv[x].kind is Function);
                                            let x = choose|x: int|
                                                0 <= x < sv.len() && (#[trigger] sv[x].id)
                                                    == pending@[kk] && sv[x].kind is Function;
                                            assert(store@.closures.contains_key(pending@[kk]));
                                            assert(fnids.skip(kk)[0] == fnids[kk]);
                                            assert(fnids.skip(kk).drop_first() =~= fnids.skip(
                                                kk + 1,
                                            ));
                                        }
                                        let fid = pending[k];
                                        store.add_closure_name(fid, name.text.clone());
                                        k = k + 1;
                                    }
                                    proof {
                                        assert(fnids.skip(pending@.len() as int)
                                            =~= Seq::<usize>::empty());
                                    }
                                    store.set_definition(use_id, def);
                                    proof {
                                        lemma_add_closures_frame(ann1, fnids, nm);
                                        lemma_bm_same_blocks(ann1, store@);
                                        lemma_bm_trans(ann0, ann1, store@);
                                        lemma_bm_trans(old(store)@, ann0, store@);
                                    }
                                    return Result::Ok(());
                                },
                                Option::None => {
                                    proof {
                                        lemma_find_name(sv[j2 as int].names, nm);
                                    }
                                    if sc2_kind == ScopeType::Function {
                                        let fid2 = self.scopes[j2].id;
                                        pending.push(fid2);
                                        proof {
                                            assert(seq![sv[b].id] + outer_find(sv, nm, b - 1).1
                                                =~= pending@ + outer_find(
                                                sv,
                                                nm,
                                                j2 as int - 1,
                                            ).1);
                                        }
                                    }
                                },
                            }
                        }
                        proof {
                            lemma_bm_same_blocks(old(store)@, store@);
                        }
                        return Result::Err(
                            ResolveError {
                                kind: ResolveErrorKind::NoSuchVariable,
                                name: name.text.clone(),
                                position: name.position,
                            },
                        );
                    }
                },
            }
        }
        proof {
            lemma_bm_same_blocks(old(store)@, store@);
        }
        Result::Err(
            ResolveError {
                kind: ResolveErrorKind::NoSuchVariable,
                name: name.text.clone(),
                position: name.position,
            },
        )
    }
}


impl AnnotationGenerator {
    /// Resolves one expression node; see `spec_resolve_expr`.
    #[verifier::loop_isolation(false)]
    #[verifier::rlimit(100)]
    fn visit_expr(&mut self, ast: &Ast, store: &mut Annotations, id: usize) -> (r: Result<
        (),
        ResolveError,
    >)
        requires
            ast.wf(),
            id < ast.nodes@.len(),
            ast.nodes@[id as int].is_expr(),
            old(store).wf(),
            scopes_in_store(old(self)@, old(store)@),
        ensures
            final(store).wf(),
            scopes_in_store(final(self)@, final(store)@),
            boxed_monotone(old(store)@, final(store)@),
            r is Ok ==> final(self)@.len() == old(self)@.len(),
            ({
                let out = spec_resolve_expr(
                    *ast,
                    RState { scopes: old(self)@, ann: old(store)@ },
                    id,
                );
                final(self)@ == out.st.scopes && final(store)@ == out.st.ann && (match r {
                    Result::Ok(_) => out.res is Ok,
                    Result::Err(e) => out.res matches Result::Err(ev) && e@ == ev,
                })
            }),
        decreases id,
    {
        proof {
            assert(node_wf(ast.nodes@, id as int));
            assert(crate::typechecker::node_children_bounded(*ast, id));
        }
        match &ast.nodes[id] {
            AstNode::NumberLiteral(_) => {
                proof {
                    lemma_bm_same_blocks(store@, store@);
                }
                Result::Ok(())
            },
            AstNode::FloatLiteral(_) => {
                proof {
                    lemma_bm_same_blocks(store@, store@);
                }
                Result::Ok(())
            },
            AstNode::BoolLiteral(_) => {
                proof {
                    lemma_bm_same_blocks(store@, store@);
                }
                Result::Ok(())
            },
            AstNode::StringLiteral(_) => {
                proof {
                    lemma_bm_same_blocks(store@, store@);
                }
                Result::Ok(())
            },
            AstNode::Name(t) => self.lookup_name(store, id, t),
            AstNode::Binary { left, right, .. } => {
                let ghost a0 = store@;
                match self.visit_expr(ast, store, *left) {
                    Result::Ok(_) => {},
                    Result::Err(e) => {
                        return Result::Err(e);
                    },
                }
                let ghost a1 = store@;
                let r2 = self.visit_expr(ast, store, *right);
                proof {
                    lemma_bm_trans(a0, a1, store@);
                }
                r2
            },
            AstNode::Unary { operand, .. } => self.visit_expr(ast, store, *operand),
            AstNode::Cond { condition, then_branch, else_branch } => {
                let ghost a0 = store@;
                match self.visit_expr(ast, store, *condition) {
                    Result::Ok(_) => {},
                    Result::Err(e) => {
                        return Result::Err(e);
                    },
                }
                let ghost a1 = store@;
                match self.visit_expr(ast, store, *then_branch) {
                    Result::Ok(_) => {},
                    Result::Err(e) => {
                        proof {
                            lemma_bm_trans(a0, a1, store@);
                        }
                        return Result::Err(e);
                    },
                }
                let ghost a2 = store@;
                let r3 = match else_branch {
                    Option::Some(eb) => self.visit_expr(ast, store, *eb),
                    Option::None => {
                        proof {
                            lemma_bm_same_blocks(store@, store@);
                        }
                        Result::Ok(())
                    },
                };
                proof {
                    lemma_bm_trans(a0, a1, a2);
                    lemma_bm_trans(a0, a2, store@);
                }
                r3
            },
            AstNode::Block { statements, .. } => {
                let ghost a0 = store@;
                self.new_scope(store, ScopeType::Block, id);
                let ghost st1 = RState { scopes: self@, ann: store@ };
                let mut i: usize = 0;
                while i < statements.len()
                    invariant
                        i <= statements@.len(),
                        spec_rpredef(*ast, st1, statements@, 0) == spec_rpredef(
                            *ast,
                            RState { scopes: self@, ann: store@ },
                            statements@,
                            i as int,
                        ),
                        self@.len() == old(self)@.len() + 1,
                        store.wf(),
                        scopes_in_store(self@, store@),
                        boxed_monotone(a0, store@),
                    decreases statements@.len() - i,
                {
                    let sid = statements[i];
                    let ghost am = store@;
                    match &ast.nodes[sid] {
                        AstNode::VarDeclaration { name, .. } => {
                            match self.declare_name(store, &name.name, DefKey {
                                node: sid,
                                slot: 0,
                            }) {
                                Result::Ok(_) => {},
                                Result::Err(e) => {
                                    proof {
                                        lemma_bm_trans(a0, am, store@);
                                    }
                                    return Result::Err(e);
                                },
                            }
                        },
                        AstNode::FunctionDeclaration { name, .. } => {
                            match self.declare_name(store, name, DefKey { node: sid, slot: 0 }) {
                                Result::Ok(_) => {},
                                Result::Err(e) => {
                                    proof {
                                        lemma_bm_trans(a0, am, store@);
                                    }
                                    return Result::Err(e);
                                },
                            }
                        },
                        _ => {},
                    }
                    proof {
                        lemma_bm_trans(a0, am, store@);
                    }
                    i = i + 1;
                }
                let ghost st2 = RState { scopes: self@, ann: store@ };
                let mut k: usize = 0;
                while k < statements.len()
                    invariant
                        k <= statements@.len(),
                        spec_resolve_stmts(*ast, st2, id, statements@, 0) == spec_resolve_stmts(
                            *ast,
                            RState { scopes: self@, ann: store@ },
                            id,
                            statements@,
                            k as int,
                        ),
                        self@.len() == old(self)@.len() + 1,
                        store.wf(),
                        scopes_in_store(self@, store@),
                        boxed_monotone(a0, store@),
                    decreases statements@.len() - k,
                {
                    let ghost am = store@;
                    match self.visit_stmt(ast, store, statements[k]) {
                        Result::Ok(_) => {},
                        Result::Err(e) => {
                            proof {
                                lemma_bm_trans(a0, am, store@);
                            }
                            return Result::Err(e);
                        },
                    }
                    proof {
                        lemma_bm_trans(a0, am, store@);
                    }
                    k = k + 1;
                }
                let ghost before_pop = self@;
                self.pop_scope();
                proof {
                    assert forall|x: int|
                        0 <= x < self@.len() implies store@.blocks.contains_key(
                        (#[trigger] self@[x]).id,
                    ) && (self@[x].kind is Function ==> store@.closures.contains_key(
                        self@[x].id,
                    )) by {
                        assert(self@[x] == before_pop[x]);
                    }
                }
                Result::Ok(())
            },
            AstNode::SingleStatement(st) => self.visit_stmt(ast, store, *st),
            AstNode::Call { target, arguments } => {
                let ghost a0 = store@;
                match self.visit_expr(ast, store, *target) {
                    Result::Ok(_) => {},
                    Result::Err(e) => {
                        return Result::Err(e);
                    },
                }
                let ghost stt = RState { scopes: self@, ann: store@ };
                let ghost a1 = store@;
                let mut k: usize = 0;
                while k < arguments.len()
                    invariant
                        k <= arguments@.len(),
                        spec_resolve_exprs(*ast, stt, id, arguments@, 0) == spec_resolve_exprs(
                            *ast,
                            RState { scopes: self@, ann: store@ },
                            id,
                            arguments@,
                            k as int,
                        ),
                        self@.len() == old(self)@.len(),
                        store.wf(),
                        scopes_in_store(self@, store@),
                        boxed_monotone(a1, store@),
                    decreases arguments@.len() - k,
                {
                    let ghost am = store@;
                    match self.visit_expr(ast, store, arguments[k]) {
                        Result::Ok(_) => {},
                        Result::Err(e) => {
                            proof {
                                lemma_bm_trans(a1, am, store@);
                                lemma_bm_trans(a0, a1, store@);
                            }
                            return Result::Err(e);
                        },
                    }
                    proof {
                        lemma_bm_trans(a1, am, store@);
                    }
                    k = k + 1;
                }
                proof {
                    lemma_bm_trans(a0, a1, store@);
                }
                Result::Ok(())
            },
            AstNode::PartialCall { target, arguments } => {
                let ghost a0 = store@;
                match self.visit_expr(ast, store, *target) {
                    Result::Ok(_) => {},
                    Result::Err(e) => {
                        return Result::Err(e);
                    },
                }
                let ghost stt = RState { scopes: self@, ann: store@ };
                let ghost a1 = store@;
                let mut k: usize = 0;
                while k < arguments.len()
                    invariant
                        k <= arguments@.len(),
                        spec_resolve_opt_exprs(*ast, stt, id, arguments@, 0)
                            == spec_resolve_opt_exprs(
                            *ast,
                            RState { scopes: self@, ann: store@ },
                            id,
                            arguments@,
                            k as int,
                        ),
                        self@.len() == old(self)@.len(),
                        store.wf(),
                        scopes_in_store(self@, store@),
                        boxed_monotone(a1, store@),
                    decreases arguments@.len() - k,
                {
                    let ghost am = store@;
                    match arguments[k] {
                        Option::Some(a) => {
                            match self.visit_expr(ast, store, a) {
                                Result::Ok(_) => {},
                                Result::Err(e) => {
                                    proof {
                                        lemma_bm_trans(a1, am, store@);
                                        lemma_bm_trans(a0, a1, store@);
                                    }
                                    return Result::Err(e);
                                },
                            }
                        },
                        Option::None => {},
                    }
                    proof {
                        lemma_bm_trans(a1, am, store@);
                    }
                    k = k + 1;
                }
                proof {
                    lemma_bm_trans(a0, a1, store@);
                }
                Result::Ok(())
            },
            AstNode::AnonFunction { arguments, vararg, body, .. } => {
                let ghost a0 = store@;
                self.new_scope(store, ScopeType::Function, id);
                match self.declare_params(ast, store, id, arguments, vararg) {
                    Result::Ok(_) => {},
                    Result::Err(e) => {
                        return Result::Err(e);
                    },
                }
                let ghost a1 = store@;
                match self.visit_expr(ast, store, *body) {
                    Result::Ok(_) => {},
                    Result::Err(e) => {
                        proof {
                            lemma_bm_trans(a0, a1, store@);
                        }
                        return Result::Err(e);
                    },
                }
                let ghost before_pop = self@;
                self.pop_scope();
                proof {
                    lemma_bm_trans(a0, a1, store@);
                    assert forall|x: int|
                        0 <= x < self@.len() implies store@.blocks.contains_key(
                        (#[trigger] self@[x]).id,
                    ) && (self@[x].kind is Function ==> store@.closures.contains_key(
                        self@[x].id,
                    )) by {
                        assert(self@[x] == before_pop[x]);
                    }
                }
                Result::Ok(())
            },
            AstNode::PropertyAccess { target, .. } => self.visit_expr(ast, store, *target),
            AstNode::PropertyCheck { target, .. } => self.visit_expr(ast, store, *target),
            _ => unreached(),
        }
    }

    /// Declares and defines a function scope's parameters; see
    /// `spec_declare_params`.
    #[verifier::loop_isolation(false)]
    fn declare_params(
        &mut self,
        ast: &Ast,
        store: &mut Annotations,
        fid: usize,
        args: &Vec<TypedName>,
        vararg: &Option<TypedName>,
    ) -> (r: Result<(), ResolveError>)
        requires
            args@.len() < usize::MAX,
            old(self)@.len() > 0,
            old(store).wf(),
            scopes_in_store(old(self)@, old(store)@),
        ensures
            final(store).wf(),
            scopes_in_store(final(self)@, final(store)@),
            boxed_monotone(old(store)@, final(store)@),
            final(self)@.len() == old(self)@.len(),
            ({
                let out = spec_declare_params(
                    RState { scopes: old(self)@, ann: old(store)@ },
                    fid,
                    args@,
                    *vararg,
                    0,
                );
                final(self)@ == out.st.scopes && final(store)@ == out.st.ann && (match r {
                    Result::Ok(_) => out.res is Ok,
                    Result::Err(e) => out.res matches Result::Err(ev) && e@ == ev,
                })
            }),
    {
        let ghost st0 = RState { scopes: self@, ann: store@ };
        let ghost a0 = store@;
        let mut i: usize = 0;
        while i < args.len()
            invariant
                i <= args@.len(),
                spec_declare_params(st0, fid, args@, *vararg, 0) == spec_declare_params(
                    RState { scopes: self@, ann: store@ },
                    fid,
                    args@,
                    *vararg,
                    i as int,
                ),
                self@.len() == old(self)@.len(),
                store.wf(),
                scopes_in_store(self@, store@),
                boxed_monotone(a0, store@),
            decreases args@.len() - i,
        {
            let ghost am = store@;
            match self.declare_name(store, &args[i].name, DefKey { node: fid, slot: i + 1 }) {
                Result::Ok(_) => {},
                Result::Err(e) => {
                    proof {
                        lemma_bm_trans(a0, am, store@);
                    }
                    return Result::Err(e);
                },
            }
            match self.define_name(&args[i].name) {
                Result::Ok(_) => {},
                Result::Err(e) => {
                    proof {
                        lemma_bm_trans(a0, am, store@);
                    }
                    return Result::Err(e);
                },
            }
            proof {
                lemma_bm_trans(a0, am, store@);
            }
            i = i + 1;
        }
        let ghost am = store@;
        match vararg {
            Option::Some(tn) => {
                match self.declare_name(store, &tn.name, DefKey {
                    node: fid,
                    slot: args.len() + 1,
                }) {
                    Result::Ok(_) => {},
                    Result::Err(e) => {
                        proof {
                            lemma_bm_trans(a0, am, store@);
                        }
                        return Result::Err(e);
                    },
                }
                let r2 = self.define_name(&tn.name);
                proof {
                    lemma_bm_trans(a0, am, store@);
                }
                r2
            },
            Option::None => {
                proof {
                    lemma_bm_same_blocks(store@, store@);
                }
                Result::Ok(())
            },
        }
    }

    /// Resolves one statement node; see `spec_resolve_stmt`.
    #[verifier::loop_isolation(false)]
    #[verifier::rlimit(100)]
    fn visit_stmt(&mut self, ast: &Ast, store: &mut Annotations, id: usize) -> (r: Result<
        (),
        ResolveError,
    >)
        requires
            ast.wf(),
            id < ast.nodes@.len(),
            ast.nodes@[id as int].is_stmt(),
            old(store).wf(),
            scopes_in_store(old(self)@, old(store)@),
        ensures
            final(store).wf(),
            scopes_in_store(final(self)@, final(store)@),
            boxed_monotone(old(store)@, final(store)@),
            r is Ok ==> final(self)@.len() == old(self)@.len(),
            ({
                let out = spec_resolve_stmt(
                    *ast,
                    RState { scopes: old(self)@, ann: old(store)@ },
                    id,
                );
                final(self)@ == out.st.scopes && final(store)@ == out.st.ann && (match r {
                    Result::Ok(_) => out.res is Ok,
                    Result::Err(e) => out.res matches Result::Err(ev) && e@ == ev,
                })
            }),
        decreases id,
    {
        proof {
            assert(node_wf(ast.nodes@, id as int));
            assert(crate::typechecker::node_children_bounded(*ast, id));
        }
        match &ast.nodes[id] {
            AstNode::VarDeclaration { name, value } => {
                let ghost a0 = store@;
                match value {
                    Option::Some(v) => {
                        match self.visit_expr(ast, store, *v) {
                            Result::Ok(_) => {},
                            Result::Err(e) => {
                                return Result::Err(e);
                            },
                        }
                    },
                    Option::None => {},
                }
                if self.scopes.len() == 0 {
                    proof {
                        lemma_bm_trans(a0, a0, store@);
                    }
                    return Result::Err(
                        ResolveError {
                            kind: ResolveErrorKind::NoSuchVariable,
                            name: name.name.text.clone(),
                            position: name.name.position,
                        },
                    );
                }
                self.define_name(&name.name)
            },
            AstNode::Assignment { target, value } => {
                let ghost a0 = store@;
                match self.lookup_name(store, id, target) {
                    Result::Ok(_) => {},
                    Result::Err(e) => {
                        return Result::Err(e);
                    },
                }
                let ghost a1 = store@;
                let r2 = self.visit_expr(ast, store, *value);
                proof {
                    lemma_bm_trans(a0, a1, store@);
                }
                r2
            },
            AstNode::Expression(e) => self.visit_expr(ast, store, *e),
            AstNode::Assert { value, .. } => self.visit_expr(ast, store, *value),
            AstNode::Pass { .. } => {
                proof {
                    lemma_bm_same_blocks(store@, store@);
                }
                Result::Ok(())
            },
            AstNode::FunctionDeclaration { name, arguments, vararg, body, .. } => {
                let ghost a0 = store@;
                self.new_scope(store, ScopeType::Function, id);
                let ghost a1 = store@;
                match self.declare_name(store, name, DefKey { node: id, slot: 0 }) {
                    Result::Ok(_) => {},
                    Result::Err(e) => {
                        proof {
                            lemma_bm_trans(a0, a1, store@);
                        }
                        return Result::Err(e);
                    },
                }
                proof {
                    lemma_bm_trans(a0, a1, store@);
                }
                match self.define_name(name) {
                    Result::Ok(_) => {},
                    Result::Err(e) => {
                        return Result::Err(e);
                    },
                }
                let ghost a2 = store@;
                match self.declare_params(ast, store, id, arguments, vararg) {
                    Result::Ok(_) => {},
                    Result::Err(e) => {
                        proof {
                            lemma_bm_trans(a0, a2, store@);
                        }
                        return Result::Err(e);
                    },
                }
                let ghost a3 = store@;
                proof {
                    lemma_bm_trans(a0, a2, a3);
                }
                match self.visit_expr(ast, store, *body) {
                    Result::Ok(_) => {},
                    Result::Err(e) => {
                        proof {
                            lemma_bm_trans(a0, a3, store@);
                        }
                        return Result::Err(e);
                    },
                }
                proof {
                    lemma_bm_trans(a0, a3, store@);
                }
                let ghost before_pop = self@;
                self.pop_scope();
                proof {
                    assert forall|x: int|
                        0 <= x < self@.len() implies store@.blocks.contains_key(
                        (#[trigger] self@[x]).id,
                    ) && (self@[x].kind is Function ==> store@.closures.contains_key(
                        self@[x].id,
                    )) by {
                        assert(self@[x] == before_pop[x]);
                    }
                }
                if self.scopes.len() == 0 {
                    return Result::Err(
                        ResolveError {
                            kind: ResolveErrorKind::NoSuchVariable,
                            name: name.text.clone(),
                            position: name.position,
                        },
                    );
                }
                self.define_name(name)
            },
            AstNode::StructDeclaration { .. } => {
                proof {
                    lemma_bm_same_blocks(store@, store@);
                }
                Result::Ok(())
            },
            AstNode::EnumDeclaration { .. } => {
                proof {
                    lemma_bm_same_blocks(store@, store@);
                }
                Result::Ok(())
            },
            AstNode::Import { .. } => {
                proof {
                    lemma_bm_same_blocks(store@, store@);
                }
                Result::Ok(())
            },
            AstNode::ImplBlock { .. } => {
                proof {
                    lemma_bm_same_blocks(store@, store@);
                }
                Result::Ok(())
            },
            AstNode::PropertyAssignment { target, value } => {
                let ghost a0 = store@;
                match self.visit_expr(ast, store, *target) {
                    Result::Ok(_) => {},
                    Result::Err(e) => {
                        return Result::Err(e);
                    },
                }
                let ghost a1 = store@;
                let r2 = self.visit_expr(ast, store, *value);
                proof {
                    lemma_bm_trans(a0, a1, store@);
                }
                r2
            },
            _ => unreached(),
        }
    }

    /// Runs the whole resolution pass over a program, filling the
    /// given store with the scope tables, capture sets and name
    /// resolutions the later stages read.
    ///
    /// Capture monotonicity: a variable the store classifies `Boxed`
    /// is never reclassified `Normal` — neither by this pass (stated
    /// here over the whole store it produces) nor afterwards, since
    /// every query of the finished store is read-only.
    pub fn generate_annotations(ast: &Ast, annotations: &mut Annotations) -> (r: Result<
        (),
        ResolveError,
    >)
        requires
            ast.wf(),
            old(annotations).wf(),
        ensures
            final(annotations).wf(),
            boxed_monotone(old(annotations)@, final(annotations)@),
            ({
                let out = spec_generate(*ast, old(annotations)@);
                final(annotations)@ == out.st.ann && (match r {
                    Result::Ok(_) => out.res is Ok,
                    Result::Err(e) => out.res matches Result::Err(ev) && e@ == ev,
                })
            }),
    {
        let mut annotator = AnnotationGenerator { scopes: Vec::new() };
        proof {
            assert(annotator@ =~= Seq::<ScopeView>::empty());
        }
        annotator.visit_expr(ast, annotations, ast.root)
    }
}


/// Runs the resolver over a program against a fresh store and hands
/// the finished store back: scope tables, capture sets and name
/// resolutions, or the first scoping error.
pub fn check(program: &Ast) -> (r: Result<Annotations, ResolveError>)
    requires
        program.wf(),
    ensures
        ({
            let empty = AnnView {
                blocks: Map::<usize, Seq<(Seq<char>, VariableType)>>::empty(),
                closures: Map::<usize, Seq<Seq<char>>>::empty(),
                defs: Map::<usize, DefKey>::empty(),
            };
            let out = spec_generate(*program, empty);
            match r {
                Result::Ok(a) => a.wf() && out.res is Ok && a@ == out.st.ann,
                Result::Err(e) => out.res matches Result::Err(ev) && e@ == ev,
            }
        }),
{
    let mut annotations = Annotations::new();
    match AnnotationGenerator::generate_annotations(program, &mut annotations) {
        Result::Ok(_) => Result::Ok(annotations),
        Result::Err(e) => Result::Err(e),
    }
}

// ---------------------------------------------------------------
// Scoping soundness.
// ---------------------------------------------------------------

/// The name is declared in scope `i`, and no scope nearer the use
/// (between `i` exclusive and `hi` inclusive) declares it.
pub open spec fn hit_at(scopes: Seq<ScopeView>, nm: Seq<char>, i: int, hi: int) -> bool {
    &&& 0 <= i <= hi < scopes.len()
    &&& find_name(scopes[i].names, nm) is Some
    &&& forall|k: int| i < k <= hi ==> find_name((#[trigger] scopes[k]).names, nm) is None
}

/// A successful local search found the innermost initialized
/// declaration, with nothing nearer the top declaring the name.
proof fn lemma_local_found(scopes: Seq<ScopeView>, nm: Seq<char>, j: int)
    requires
        -1 <= j < scopes.len(),
        local_find(scopes, nm, j) is Found,
    ensures
        exists|i: int|
            {
                &&& #[trigger] hit_at(scopes, nm, i, j)
                &&& (match find_name(scopes[i].names, nm) {
                    Option::Some(e) => e.defined && local_find(scopes, nm, j)
                        == LocalOutcome::Found(e.def),
                    Option::None => false,
                })
            },
    decreases j + 1,
{
    match find_name(scopes[j].names, nm) {
        Option::Some(e) => {
            assert(hit_at(scopes, nm, j, j));
        },
        Option::None => {
            lemma_local_found(scopes, nm, j - 1);
            let i = choose|i: int|
                {
                    &&& #[trigger] hit_at(scopes, nm, i, j - 1)
                    &&& (match find_name(scopes[i].names, nm) {
                        Option::Some(e) => e.defined && local_find(scopes, nm, j - 1)
                            == LocalOutcome::Found(e.def),
                        Option::None => false,
                    })
                };
            assert(hit_at(scopes, nm, i, j));
        },
    }
}

/// A local search ending at a boundary found a function scope with
/// the name undeclared at or above it.
proof fn lemma_local_boundary(scopes: Seq<ScopeView>, nm: Seq<char>, j: int, b: int)
    requires
        -1 <= j < scopes.len(),
        local_find(scopes, nm, j) == LocalOutcome::Boundary(b),
    ensures
        0 <= b <= j,
        scopes[b].kind is Function,
        forall|k: int| b <= k <= j ==> find_name((#[trigger] scopes[k]).names, nm) is None,
    decreases j + 1,
{
    match find_name(scopes[j].names, nm) {
        Option::Some(e) => {},
        Option::None => {
            if scopes[j].kind is Function {
            } else {
                lemma_local_boundary(scopes, nm, j - 1, b);
            }
        },
    }
}

/// A successful outer search found the innermost declaring scope
/// below the boundary.
proof fn lemma_outer_found(scopes: Seq<ScopeView>, nm: Seq<char>, j: int, dj: int, def: DefKey)
    requires
        -1 <= j < scopes.len(),
        outer_find(scopes, nm, j).0 == Option::Some((dj, def)),
    ensures
        0 <= dj <= j,
        find_name(scopes[dj].names, nm) is Some,
        (match find_name(scopes[dj].names, nm) {
            Option::Some(e) => e.def == def,
            Option::None => false,
        }),
        forall|k: int| dj < k <= j ==> find_name((#[trigger] scopes[k]).names, nm) is None,
    decreases j + 1,
{
    match find_name(scopes[j].names, nm) {
        Option::Some(e) => {},
        Option::None => {
            lemma_outer_found(scopes, nm, j - 1, dj, def);
        },
    }
}

/// Scoping soundness: a name use that resolves successfully is bound
/// to the innermost declaration of that name visible from the use —
/// no scope between the declaration and the use declares the same
/// name — and the store records exactly that declaration for the use.
/// When no function boundary stands between use and declaration, the
/// declaration is moreover already initialized at the point of use.
pub proof fn lemma_scoping_soundness(st: RState, use_id: usize, name: TokenView)
    requires
        st.scopes.len() > 0,
        spec_lookup(st, use_id, name).res is Ok,
    ensures
        exists|i: int|
            {
                &&& #[trigger] hit_at(st.scopes, name.text, i, st.scopes.len() - 1)
                &&& (match find_name(st.scopes[i].names, name.text) {
                    Option::Some(e) => {
                        &&& spec_lookup(st, use_id, name).st.ann.defs == st.ann.defs.insert(
                            use_id,
                            e.def,
                        )
                        &&& ((forall|k: int|
                            i < k < st.scopes.len() ==> (#[trigger] st.scopes[k]).kind
                                is Block) ==> e.defined)
                    },
                    Option::None => false,
                })
            },
{
    let scopes = st.scopes;
    let nm = name.text;
    let top = scopes.len() - 1;
    match local_find(scopes, nm, top) {
        LocalOutcome::Found(def) => {
            lemma_local_found(scopes, nm, top);
            let i = choose|i: int|
                {
                    &&& #[trigger] hit_at(scopes, nm, i, top)
                    &&& (match find_name(scopes[i].names, nm) {
                        Option::Some(e) => e.defined && local_find(scopes, nm, top)
                            == LocalOutcome::Found(e.def),
                        Option::None => false,
                    })
                };
            assert(hit_at(st.scopes, name.text, i, st.scopes.len() - 1));
        },
        LocalOutcome::Undefined => {},
        LocalOutcome::Missing => {},
        LocalOutcome::Boundary(b) => {
            lemma_local_boundary(scopes, nm, top, b);
            let of = outer_find(scopes, nm, b - 1);
            match of.0 {
                Option::None => {},
                Option::Some(hit) => {
                    lemma_outer_found(scopes, nm, b - 1, hit.0, hit.1);
                    let dj = hit.0;
                    let dsid = scopes[dj].id;
                    let ann1 = AnnView {
                        blocks: st.ann.blocks.insert(
                            dsid,
                            upsert(scope_entries(st.ann, dsid), nm, VariableType::Boxed),
                        ),
                        closures: st.ann.closures,
                        defs: st.ann.defs,
                    };
                    lemma_add_closures_frame(ann1, seq![scopes[b].id] + of.1, nm);
                    assert forall|k: int|
                        dj < k <= top implies find_name(
                        (#[trigger] scopes[k]).names,
                        nm,
                    ) is None by {
                        if k >= b {
                            assert(b <= k <= top);
                        }
                    }
                    assert(hit_at(scopes, nm, dj, top));
                    assert(dj < b <= top);
                    assert(scopes[b].kind is Function);
                    assert(!((forall|k: int|
                        dj < k < scopes.len() ==> (#[trigger] scopes[k]).kind is Block)));
                },
            }
        },
    }
}


} // verus!
