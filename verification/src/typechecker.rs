//! The type checker: a second walk over the tree that, using the
//! annotation store for name resolution, computes a type for every
//! expression, statement and declaration, and fails fast on the first
//! ill-typed construct.

use vstd::prelude::*;

pub use crate::ast::Typable;

use crate::assoc::{kv_distinct, kv_map, lemma_kv_distinct_push, lemma_kv_distinct_update,
    lemma_kv_map_absent, lemma_kv_map_at, lemma_kv_map_push, lemma_kv_map_update};
use crate::ast::{Ast, AstNode, DefKey, Index, Token, TokenKind, TokenView, TypeMention,
    TypedName};
use crate::store::{AnnView, Annotations};
use crate::types::{Arity, CallableType, Type, TypeView, clone_type, compatible, is_compatible,
    type_seq_view, type_view, union_of, build_union, lemma_type_seq_view};
use vstd::string::StringExecFns;
use vstd::pervasive::unreached;
use crate::ast::node_wf;

verus! {

/// A type error that has not yet been tied to a source position.
#[derive(Debug)]
pub enum SomewhereTypeError {
    /// A value of type `got` arrived where `expected` was demanded.
    TypeMismatch { expected: Type, got: Type },
    /// No typing rule covers this operator on these operand types.
    UnspecifiedBinary { left: Type, op: Token, right: Type },
    /// A type annotation names a type that does not exist.
    UnknownType { value: Token },
    /// A call with the wrong number of arguments.
    ArityMismatch { expected: Arity, got: usize },
    /// The operation cannot be applied to the target type at all.
    OperationUnsupported { target: Type, message: String },
    /// Property access on a type that has no such property.
    AttributeError { target_type: Type, field: String },
}

/// Mathematical image of a `SomewhereTypeError`.
pub enum SomewhereView {
    TypeMismatch { expected: TypeView, got: TypeView },
    UnspecifiedBinary { left: TypeView, op: TokenView, right: TypeView },
    UnknownType { value: TokenView },
    ArityMismatch { expected: Arity, got: usize },
    OperationUnsupported { target: TypeView, message: Seq<char> },
    AttributeError { target_type: TypeView, field: Seq<char> },
}

impl View for SomewhereTypeError {
    type V = SomewhereView;

    open spec fn view(&self) -> SomewhereView {
        match self {
            SomewhereTypeError::TypeMismatch { expected, got } => SomewhereView::TypeMismatch {
                expected: type_view(*expected),
                got: type_view(*got),
            },
            SomewhereTypeError::UnspecifiedBinary { left, op, right } => SomewhereView::UnspecifiedBinary {
                left: type_view(*left),
                op: op@,
                right: type_view(*right),
            },
            SomewhereTypeError::UnknownType { value } => SomewhereView::UnknownType { value: value@ },
            SomewhereTypeError::ArityMismatch { expected, got } => SomewhereView::ArityMismatch {
                expected: *expected,
                got: *got,
            },
            SomewhereTypeError::OperationUnsupported { target, message } => SomewhereView::OperationUnsupported {
                target: type_view(*target),
                message: message@,
            },
            SomewhereTypeError::AttributeError { target_type, field } => SomewhereView::AttributeError {
                target_type: type_view(*target_type),
                field: field@,
            },
        }
    }
}

/// A type error tied to the source position it is reported at.
#[derive(Debug)]
pub struct LocalizedError {
    pub error: SomewhereTypeError,
    pub position: Index,
}

/// Mathematical image of a `LocalizedError`.
pub struct LocalizedView {
    pub error: SomewhereView,
    pub position: Index,
}

impl View for LocalizedError {
    type V = LocalizedView;

    open spec fn view(&self) -> LocalizedView {
        LocalizedView { error: self.error@, position: self.position }
    }
}

impl SomewhereTypeError {
    /// Ties this error to a source position.
    pub fn at(self, position: Index) -> (r: LocalizedError)
        ensures
            r@ == (LocalizedView { error: self@, position }),
    {
        LocalizedError { error: self, position }
    }
}

/// A type error, with or without a position.
#[derive(Debug)]
pub enum TypeError {
    Somewhere(SomewhereTypeError),
    LocalizedError(LocalizedError),
}

/// Mathematical image of a `TypeError`.
pub enum TypeErrorView {
    Somewhere(SomewhereView),
    Localized(LocalizedView),
}

impl View for TypeError {
    type V = TypeErrorView;

    open spec fn view(&self) -> TypeErrorView {
        match self {
            TypeError::Somewhere(e) => TypeErrorView::Somewhere(e@),
            TypeError::LocalizedError(e) => TypeErrorView::Localized(e@),
        }
    }
}

// ---------------------------------------------------------------
// The type map.
// ---------------------------------------------------------------

/// The checker's output: a type for every typed node and declaration.
#[derive(Debug)]
pub struct Typemap {
    pub entries: Vec<(Typable, Type)>,
}

impl Typemap {
    pub open spec fn entries_assoc(self) -> Seq<(Typable, TypeView)> {
        self.entries@.map_values(|p: (Typable, Type)| (p.0, type_view(p.1)))
    }

    pub open spec fn wf(self) -> bool {
        kv_distinct(self.entries_assoc())
    }

    pub fn new() -> (r: Typemap)
        ensures
            r.wf(),
            r@ == Map::<Typable, TypeView>::empty(),
    {
        let r = Typemap { entries: Vec::new() };
        proof {
            assert(r.entries_assoc() =~= Seq::<(Typable, TypeView)>::empty());
        }
        r
    }

    /// The recorded type of a node or declaration; `Unspecified` when
    /// nothing was recorded.
    pub fn type_of(&self, obj: Typable) -> (r: Type)
        requires
            self.wf(),
        ensures
            r@ == spec_type_of(self@, obj),
    {
        let mut i: usize = 0;
        while i < self.entries.len()
            invariant
                i <= self.entries@.len(),
                forall|j: int| 0 <= j < i ==> (#[trigger] self.entries@[j]).0 != obj,
                self.wf(),
            decreases self.entries@.len() - i,
        {
            if self.entries[i].0 == obj {
                proof {
                    lemma_kv_map_at(self.entries_assoc(), i as int);
                }
                return clone_type(&self.entries[i].1);
            }
            i = i + 1;
        }
        proof {
            assert forall|j: int| 0 <= j < self.entries_assoc().len() implies (
            #[trigger] self.entries_assoc()[j]).0 != obj by {}
            lemma_kv_map_absent(self.entries_assoc(), obj);
        }
        Type::Unspecified
    }

    /// Inserts or overwrites one binding.
    fn add(&mut self, key: Typable, t: Type)
        requires
            old(self).wf(),
        ensures
            final(self).wf(),
            final(self)@ == old(self)@.insert(key, type_view(t)),
    {
        let mut i: usize = 0;
        while i < self.entries.len()
            invariant
                i <= self.entries@.len(),
                forall|j: int| 0 <= j < i ==> (#[trigger] self.entries@[j]).0 != key,
                self == old(self),
                old(self).wf(),
            decreases self.entries@.len() - i,
        {
            if self.entries[i].0 == key {
                let ghost before = self.entries_assoc();
                let slot = &mut self.entries[i];
                *slot = (key, t);
                proof {
                    assert(self.entries_assoc() =~= before.update(i as int, (key, type_view(t))));
                    lemma_kv_map_update(before, i as int, key, type_view(t));
                    lemma_kv_distinct_update(before, i as int, key, type_view(t));
                }
                return ;
            }
            i = i + 1;
        }
        let ghost before = self.entries_assoc();
        self.entries.push((key, t));
        proof {
            assert(self.entries_assoc() =~= before.push((key, type_view(t))));
            lemma_kv_map_push(before, key, type_view(t));
            lemma_kv_distinct_push(before, key, type_view(t));
        }
    }

    /// Records an expression node's type.
    pub fn add_expr(&mut self, expr: usize, expr_type: Type)
        requires
            old(self).wf(),
        ensures
            final(self).wf(),
            final(self)@ == old(self)@.insert(Typable::Expr(expr), type_view(expr_type)),
    {
        self.add(Typable::Expr(expr), expr_type);
    }

    /// Records a statement node's type.
    pub fn add_stmt(&mut self, stmt: usize, stmt_type: Type)
        requires
            old(self).wf(),
        ensures
            final(self).wf(),
            final(self)@ == old(self)@.insert(Typable::Stmt(stmt), type_view(stmt_type)),
    {
        self.add(Typable::Stmt(stmt), stmt_type);
    }

    /// Records a declaration's type.
    pub fn add_definition(&mut self, name: DefKey, def_type: Type)
        requires
            old(self).wf(),
        ensures
            final(self).wf(),
            final(self)@ == old(self)@.insert(Typable::Definition(name), type_view(def_type)),
    {
        self.add(Typable::Definition(name), def_type);
    }
}

impl View for Typemap {
    type V = Map<Typable, TypeView>;

    open spec fn view(&self) -> Map<Typable, TypeView> {
        kv_map(self.entries_assoc())
    }
}

/// The type recorded for `k`, defaulting to `Unspecified`.
pub open spec fn spec_type_of(m: Map<Typable, TypeView>, k: Typable) -> TypeView {
    if m.contains_key(k) {
        m[k]
    } else {
        TypeView::Unspecified
    }
}

// ---------------------------------------------------------------
// The pure typing rules.
// ---------------------------------------------------------------

/// Numeric promotion for the arithmetic operators: both operands must
/// be `Int` or `Float`; the result is `Int` exactly when both are.
pub open spec fn numeric_upcast(l: TypeView, r: TypeView) -> Result<TypeView, SomewhereView> {
    if !(l is Int || l is Float) {
        Result::Err(
            SomewhereView::TypeMismatch {
                expected: TypeView::Union(seq![TypeView::Int, TypeView::Float]),
                got: l,
            },
        )
    } else if !(r is Int || r is Float) {
        Result::Err(
            SomewhereView::TypeMismatch {
                expected: TypeView::Union(seq![TypeView::Int, TypeView::Float]),
                got: r,
            },
        )
    } else if l is Int && r is Int {
        Result::Ok(TypeView::Int)
    } else {
        Result::Ok(TypeView::Float)
    }
}

/// Executable twin of `numeric_upcast`.
pub fn number_upcast_binary_op(left: &Type, right: &Type) -> (r: Result<Type, SomewhereTypeError>)
    ensures
        (match r {
            Result::Ok(t) => numeric_upcast(left@, right@) matches Result::Ok(tv) && t@ == tv,
            Result::Err(e) => numeric_upcast(left@, right@) matches Result::Err(ev) && e@ == ev,
        }),
{
    let l_num = match left {
        Type::Int => true,
        Type::Float => true,
        _ => false,
    };
    if !l_num {
        let expected = build_union(Type::Int, Type::Float);
        proof {
            lemma_int_float_union();
        }
        return Result::Err(
            SomewhereTypeError::TypeMismatch { expected, got: clone_type(left) },
        );
    }
    let r_num = match right {
        Type::Int => true,
        Type::Float => true,
        _ => false,
    };
    if !r_num {
        let expected = build_union(Type::Int, Type::Float);
        proof {
            lemma_int_float_union();
        }
        return Result::Err(
            SomewhereTypeError::TypeMismatch { expected, got: clone_type(right) },
        );
    }
    let l_int = match left {
        Type::Int => true,
        _ => false,
    };
    let r_int = match right {
        Type::Int => true,
        _ => false,
    };
    if l_int && r_int {
        Result::Ok(Type::Int)
    } else {
        Result::Ok(Type::Float)
    }
}

/// `Int | Float`, as `union_of` produces it.
proof fn lemma_int_float_union()
    ensures
        union_of(TypeView::Int, TypeView::Float) == TypeView::Union(
            seq![TypeView::Int, TypeView::Float],
        ),
{
    reveal_with_fuel(crate::types::add_missing, 3);
    assert(crate::types::union_members(TypeView::Int) =~= seq![TypeView::Int]);
    assert(crate::types::union_members(TypeView::Float) =~= seq![TypeView::Float]);
    let e = Seq::<TypeView>::empty();
    let s1 = seq![TypeView::Int];
    assert(seq![TypeView::Int].drop_first() =~= e);
    assert(seq![TypeView::Float].drop_first() =~= e);
    assert(!e.contains(TypeView::Int));
    assert(e.push(TypeView::Int) =~= s1);
    assert(crate::types::add_missing(e, seq![TypeView::Int]) == s1);
    assert(!s1.contains(TypeView::Float)) by {
        if s1.contains(TypeView::Float) {
            let k = choose|k: int| 0 <= k < s1.len() && s1[k] == TypeView::Float;
            assert(s1[0] == TypeView::Int);
        }
    }
    assert(s1.push(TypeView::Float) =~= seq![TypeView::Int, TypeView::Float]);
    assert(crate::types::add_missing(s1, seq![TypeView::Float]) == seq![
        TypeView::Int,
        TypeView::Float,
    ]);
}

// ---------------------------------------------------------------
// Type annotations.
// ---------------------------------------------------------------

/// The type a written annotation denotes: one of the primitive type
/// names, or a function type built from its parts. A name that denotes
/// no type is an `UnknownType` error. (Struct and enum names are not
/// resolved: their semantics are out of scope.)
pub open spec fn spec_build_type(m: TypeMention) -> Result<TypeView, SomewhereView>
    decreases m,
{
    match m {
        TypeMention::Simple(t) => {
            if t.text@ == "Int"@ {
                Result::Ok(TypeView::Int)
            } else if t.text@ == "Float"@ {
                Result::Ok(TypeView::Float)
            } else if t.text@ == "Bool"@ {
                Result::Ok(TypeView::Bool)
            } else if t.text@ == "String"@ {
                Result::Ok(TypeView::Str)
            } else if t.text@ == "Nothing"@ {
                Result::Ok(TypeView::Nothing)
            } else {
                Result::Err(SomewhereView::UnknownType { value: t@ })
            }
        },
        TypeMention::Function { arguments, vararg, ret, .. } => match spec_build_types(
            arguments@,
        ) {
            Result::Err(e) => Result::Err(e),
            Result::Ok(args) => {
                let va = match vararg {
                    Option::Some(b) => match spec_build_type(*b) {
                        Result::Ok(v) => Result::Ok(Option::Some(v)),
                        Result::Err(e) => Result::Err(e),
                    },
                    Option::None => Result::Ok(Option::None),
                };
                match va {
                    Result::Err(e) => Result::Err(e),
                    Result::Ok(vo) => match spec_build_type(*ret) {
                        Result::Err(e) => Result::Err(e),
                        Result::Ok(rv) => Result::Ok(
                            TypeView::Callable {
                                arguments: args,
                                vararg: match vo {
                                    Option::Some(v) => Option::Some(Box::new(v)),
                                    Option::None => Option::None,
                                },
                                ret: Box::new(rv),
                            },
                        ),
                    },
                }
            },
        },
    }
}

/// The types a list of annotations denotes, or the first error.
pub open spec fn spec_build_types(s: Seq<TypeMention>) -> Result<Seq<TypeView>, SomewhereView>
    decreases s,
{
    if s.len() == 0 {
        Result::Ok(Seq::empty())
    } else {
        match spec_build_type(s[0]) {
            Result::Err(e) => Result::Err(e),
            Result::Ok(t) => match spec_build_types(s.drop_first()) {
                Result::Err(e) => Result::Err(e),
                Result::Ok(rest) => Result::Ok(seq![t] + rest),
            },
        }
    }
}

/// Does this string hold exactly the characters of `lit`?
fn text_matches(t: &String, lit: &str) -> (r: bool)
    ensures
        r == (t@ == lit@),
{
    let s = String::from_str(lit);
    *t == s
}

/// Executable twin of `spec_build_type`.
pub fn build_type(m: &TypeMention) -> (r: Result<Type, SomewhereTypeError>)
    ensures
        (match r {
            Result::Ok(t) => spec_build_type(*m) matches Result::Ok(tv) && t@ == tv,
            Result::Err(e) => spec_build_type(*m) matches Result::Err(ev) && e@ == ev,
        }),
    decreases *m,
{
    match m {
        TypeMention::Simple(t) => {
            if text_matches(&t.text, "Int") {
                Result::Ok(Type::Int)
            } else if text_matches(&t.text, "Float") {
                Result::Ok(Type::Float)
            } else if text_matches(&t.text, "Bool") {
                Result::Ok(Type::Bool)
            } else if text_matches(&t.text, "String") {
                Result::Ok(Type::Str)
            } else if text_matches(&t.text, "Nothing") {
                Result::Ok(Type::Nothing)
            } else {
                Result::Err(
                    SomewhereTypeError::UnknownType {
                        value: Token {
                            kind: t.kind,
                            position: t.position,
                            text: t.text.clone(),
                        },
                    },
                )
            }
        },
        TypeMention::Function { arguments, vararg, ret, .. } => {
            let args = match build_types(arguments) {
                Result::Ok(a) => a,
                Result::Err(e) => {
                    return Result::Err(e);
                },
            };
            let va: Option<Box<Type>> = match vararg {
                Option::Some(b) => match build_type(b) {
                    Result::Ok(v) => Option::Some(Box::new(v)),
                    Result::Err(e) => {
                        return Result::Err(e);
                    },
                },
                Option::None => Option::None,
            };
            let rv = match build_type(ret) {
                Result::Ok(v) => v,
                Result::Err(e) => {
                    return Result::Err(e);
                },
            };
            Result::Ok(
                Type::Callable(CallableType { arguments: args, vararg: va, ret: Box::new(rv) }),
            )
        },
    }
}

/// Executable twin of `spec_build_types`.
fn build_types(ms: &Vec<TypeMention>) -> (r: Result<Vec<Type>, SomewhereTypeError>)
    ensures
        (match r {
            Result::Ok(ts) => spec_build_types(ms@) matches Result::Ok(tv) && type_seq_view(ts@)
                == tv,
            Result::Err(e) => spec_build_types(ms@) matches Result::Err(ev) && e@ == ev,
        }),
    decreases *ms,
{
    let mut out: Vec<Type> = Vec::new();
    proof {
        assert(type_seq_view(out@) =~= Seq::<TypeView>::empty());
        assert(ms@.skip(0) =~= ms@);
    }
    let mut i: usize = 0;
    while i < ms.len()
        invariant
            i <= ms@.len(),
            spec_build_types(ms@) == (match spec_build_types(ms@.skip(i as int)) {
                Result::Ok(rest) => Result::<Seq<TypeView>, SomewhereView>::Ok(
                    type_seq_view(out@) + rest,
                ),
                Result::Err(e) => Result::<Seq<TypeView>, SomewhereView>::Err(e),
            }),
        decreases ms@.len() - i,
    {
        proof {
            assert(ms@.skip(i as int)[0] == ms@[i as int]);
            assert(ms@.skip(i as int).drop_first() =~= ms@.skip(i as int + 1));
        }
        match build_type(&ms[i]) {
            Result::Ok(t) => {
                let ghost before = out@;
                out.push(t);
                proof {
                    crate::types::lemma_type_seq_view_push(before, out@.last());
                    assert(before.push(out@.last()) =~= out@);
                    match spec_build_types(ms@.skip(i as int + 1)) {
                        Result::Ok(rest) => {
                            assert(type_seq_view(before) + (seq![type_seq_view(out@).last()]
                                + rest) =~= type_seq_view(out@) + rest);
                        },
                        Result::Err(_) => {},
                    }
                }
            },
            Result::Err(e) => {
                return Result::Err(e);
            },
        }
        i = i + 1;
    }
    proof {
        assert(ms@.skip(ms@.len() as int) =~= Seq::<TypeMention>::empty());
        assert(type_seq_view(out@) + Seq::<TypeView>::empty() =~= type_seq_view(out@));
    }
    Result::Ok(out)
}

// ---------------------------------------------------------------
// Binary operators.
// ---------------------------------------------------------------

/// The type of a binary expression `l op r`, or its error. Equality
/// tests are Bool on anything; an `Unspecified` operand silences every
/// other operator; `mod` is Int only; the arithmetic operators promote
/// numerically, with `+` also concatenating strings; the orderings
/// compare two strings or two numbers; `and`/`or` on two Bools are
/// Bool and on anything else union their operand types.
pub open spec fn binary_result(op: TokenView, l: TypeView, r: TypeView) -> Result<
    TypeView,
    TypeErrorView,
> {
    if op.kind == TokenKind::CompareEquals || op.kind == TokenKind::CompareNotEquals {
        Result::Ok(TypeView::Bool)
    } else if l is Unspecified || r is Unspecified {
        Result::Ok(TypeView::Unspecified)
    } else if op.kind == TokenKind::Mod && l is Int && r is Int {
        Result::Ok(TypeView::Int)
    } else if (op.kind == TokenKind::Or || op.kind == TokenKind::And) && l is Bool && r is Bool {
        Result::Ok(TypeView::Bool)
    } else if op.kind == TokenKind::Minus || op.kind == TokenKind::Star || op.kind
        == TokenKind::Slash || op.kind == TokenKind::Power {
        lift_numeric(numeric_upcast(l, r), op.position)
    } else if op.kind == TokenKind::Plus {
        if l is Str && r is Str {
            Result::Ok(TypeView::Str)
        } else {
            lift_numeric(numeric_upcast(l, r), op.position)
        }
    } else if op.kind == TokenKind::CompareGreater || op.kind == TokenKind::CompareGreaterEqual
        || op.kind == TokenKind::CompareLess || op.kind == TokenKind::CompareLessEqual {
        if l is Str && r is Str {
            Result::Ok(TypeView::Bool)
        } else {
            match numeric_upcast(l, r) {
                Result::Ok(_) => Result::Ok(TypeView::Bool),
                Result::Err(e) => Result::Err(
                    TypeErrorView::Localized(LocalizedView { error: e, position: op.position }),
                ),
            }
        }
    } else if op.kind == TokenKind::Or || op.kind == TokenKind::And {
        Result::Ok(union_of(l, r))
    } else {
        Result::Err(
            TypeErrorView::Localized(
                LocalizedView {
                    error: SomewhereView::UnspecifiedBinary { left: l, op, right: r },
                    position: op.position,
                },
            ),
        )
    }
}

/// Attaches the operator's position to a numeric-promotion error.
pub open spec fn lift_numeric(r: Result<TypeView, SomewhereView>, position: Index) -> Result<
    TypeView,
    TypeErrorView,
> {
    match r {
        Result::Ok(t) => Result::Ok(t),
        Result::Err(e) => Result::Err(
            TypeErrorView::Localized(LocalizedView { error: e, position }),
        ),
    }
}

// ---------------------------------------------------------------
// Calls.
// ---------------------------------------------------------------

/// The parameter type demanded at argument position `i`: a fixed
/// parameter's type, or the vararg type for every extra argument.
pub open spec fn expected_param(
    params: Seq<TypeView>,
    vararg: Option<Box<TypeView>>,
    i: int,
) -> TypeView {
    if i < params.len() {
        params[i]
    } else {
        match vararg {
            Option::Some(v) => *v,
            Option::None => TypeView::Unspecified,
        }
    }
}

/// The first argument whose type does not fit its parameter, from
/// position `i` on, as a `TypeMismatch`; `None` when all fit.
pub open spec fn first_arg_mismatch(
    params: Seq<TypeView>,
    vararg: Option<Box<TypeView>>,
    args: Seq<TypeView>,
    i: int,
) -> Option<SomewhereView>
    decreases args.len() - i,
{
    if i < 0 || i >= args.len() {
        Option::None
    } else if !compatible(args[i], expected_param(params, vararg, i)) {
        Option::Some(
            SomewhereView::TypeMismatch {
                expected: expected_param(params, vararg, i),
                got: args[i],
            },
        )
    } else {
        first_arg_mismatch(params, vararg, args, i + 1)
    }
}

/// Arity acceptance over a mathematical count.
pub open spec fn spec_accepts_n(a: Arity, n: nat) -> bool {
    if a.has_vararg {
        n >= a.required
    } else {
        n == a.required
    }
}

/// The result type of calling a value of type `target` on arguments
/// typed `args`: `Unspecified` or union callees short-circuit to
/// `Unspecified`; a non-callable cannot be called; a callable demands
/// its arity and each argument's compatibility, and returns its
/// declared return type.
pub open spec fn call_result(target: TypeView, args: Seq<TypeView>, pos: Index) -> Result<
    TypeView,
    TypeErrorView,
> {
    match target {
        TypeView::Unspecified => Result::Ok(TypeView::Unspecified),
        TypeView::Union(_) => Result::Ok(TypeView::Unspecified),
        TypeView::Callable { arguments, vararg, ret } => {
            let a = Arity { required: arguments.len() as usize, has_vararg: vararg is Some };
            if !spec_accepts_n(a, args.len()) {
                Result::Err(
                    TypeErrorView::Localized(
                        LocalizedView {
                            error: SomewhereView::ArityMismatch {
                                expected: a,
                                got: args.len() as usize,
                            },
                            position: pos,
                        },
                    ),
                )
            } else {
                match first_arg_mismatch(arguments, vararg, args, 0) {
                    Option::Some(e) => Result::Err(TypeErrorView::Somewhere(e)),
                    Option::None => Result::Ok(*ret),
                }
            }
        },
        _ => Result::Err(
            TypeErrorView::Localized(
                LocalizedView {
                    error: SomewhereView::OperationUnsupported {
                        target,
                        message: "cannot call"@,
                    },
                    position: pos,
                },
            ),
        ),
    }
}

// ---------------------------------------------------------------
// Laws of the pure rules.
// ---------------------------------------------------------------

/// Numeric promotion: for `+ - * / ^`, Int with Int gives Int, and any
/// mix of Int and Float gives Float.
pub proof fn lemma_numeric_promotion(op: TokenView, l: TypeView, r: TypeView)
    requires
        op.kind == TokenKind::Plus || op.kind == TokenKind::Minus || op.kind == TokenKind::Star
            || op.kind == TokenKind::Slash || op.kind == TokenKind::Power,
    ensures
        l is Int && r is Int ==> binary_result(op, l, r) == Result::<
            TypeView,
            TypeErrorView,
        >::Ok(TypeView::Int),
        (l is Int && r is Float) || (l is Float && r is Int) || (l is Float && r is Float)
            ==> binary_result(op, l, r) == Result::<TypeView, TypeErrorView>::Ok(TypeView::Float),
{
}

/// `mod` types as Int on two Int operands and rejects every other
/// concrete operand pair. (An `Unspecified` operand instead silences
/// the operator, as the gradual escape demands.)
pub proof fn lemma_mod_int_only(op: TokenView, l: TypeView, r: TypeView)
    requires
        op.kind == TokenKind::Mod,
        !(l is Unspecified),
        !(r is Unspecified),
    ensures
        l is Int && r is Int ==> binary_result(op, l, r) == Result::<
            TypeView,
            TypeErrorView,
        >::Ok(TypeView::Int),
        !(l is Int && r is Int) ==> binary_result(op, l, r) is Err,
{
}

/// Gradual escape at binary operators: an `Unspecified` operand
/// type-checks under every operator; every operator but the equality
/// tests then yields `Unspecified` (the equality tests yield Bool on
/// any operands whatsoever).
pub proof fn lemma_gradual_escape_binary(op: TokenView, l: TypeView, r: TypeView)
    requires
        l is Unspecified || r is Unspecified,
    ensures
        binary_result(op, l, r) is Ok,
        op.kind != TokenKind::CompareEquals && op.kind != TokenKind::CompareNotEquals
            ==> binary_result(op, l, r) == Result::<TypeView, TypeErrorView>::Ok(
            TypeView::Unspecified,
        ),
        op.kind == TokenKind::CompareEquals || op.kind == TokenKind::CompareNotEquals
            ==> binary_result(op, l, r) == Result::<TypeView, TypeErrorView>::Ok(TypeView::Bool),
{
}

/// Gradual escape at calls: calling an `Unspecified` callee always
/// type-checks and yields `Unspecified`, whatever the arguments.
pub proof fn lemma_gradual_escape_call(args: Seq<TypeView>, pos: Index)
    ensures
        call_result(TypeView::Unspecified, args, pos) == Result::<
            TypeView,
            TypeErrorView,
        >::Ok(TypeView::Unspecified),
{
}

/// All arguments from position `k` on fit their parameters, so no
/// mismatch is found.
proof fn lemma_no_arg_mismatch(
    params: Seq<TypeView>,
    vararg: Option<Box<TypeView>>,
    args: Seq<TypeView>,
    k: int,
)
    requires
        forall|i: int|
            k <= i < args.len() ==> compatible(#[trigger] args[i], expected_param(params, vararg, i)),
        0 <= k,
    ensures
        first_arg_mismatch(params, vararg, args, k) is None,
    decreases args.len() - k,
{
    if k < args.len() {
        lemma_no_arg_mismatch(params, vararg, args, k + 1);
    }
}

/// Arity enforcement: a callable of fixed arity `n` without vararg
/// rejects any other argument count (in particular `n - 1` and
/// `n + 1`) with `ArityMismatch`; with a vararg, every count at least
/// `n` passes the arity check, and when each fixed argument fits its
/// parameter and each extra argument fits the vararg type, the call
/// types as the declared return type.
pub proof fn lemma_arity_enforcement(
    arguments: Seq<TypeView>,
    vararg: Option<Box<TypeView>>,
    ret: Box<TypeView>,
    args: Seq<TypeView>,
    pos: Index,
)
    requires
        arguments.len() <= usize::MAX,
    ensures
        vararg is None && args.len() != arguments.len() ==> call_result(
            TypeView::Callable { arguments, vararg, ret },
            args,
            pos,
        ) == Result::<TypeView, TypeErrorView>::Err(
            TypeErrorView::Localized(
                LocalizedView {
                    error: SomewhereView::ArityMismatch {
                        expected: Arity {
                            required: arguments.len() as usize,
                            has_vararg: false,
                        },
                        got: args.len() as usize,
                    },
                    position: pos,
                },
            ),
        ),
        (vararg is Some && args.len() >= arguments.len() && (forall|i: int|
            0 <= i < args.len() ==> compatible(
                #[trigger] args[i],
                expected_param(arguments, vararg, i),
            ))) ==> call_result(TypeView::Callable { arguments, vararg, ret }, args, pos)
            == Result::<TypeView, TypeErrorView>::Ok(*ret),
{
    let t = TypeView::Callable { arguments, vararg, ret };
    if vararg is Some && args.len() >= arguments.len() && (forall|i: int|
        0 <= i < args.len() ==> compatible(
            #[trigger] args[i],
            expected_param(arguments, vararg, i),
        )) {
        lemma_no_arg_mismatch(arguments, vararg, args, 0);
    }
}


// ---------------------------------------------------------------
// The checking walk, as a mathematical function.
// ---------------------------------------------------------------

/// Result of checking one node: the node's type or the first error,
/// plus the type map as it stands afterwards.
pub struct TcOut {
    pub res: Result<TypeView, TypeErrorView>,
    pub map: Map<Typable, TypeView>,
}

/// Result of checking a call's argument list: the argument types in
/// order, or the first error, plus the type map afterwards.
pub struct TcArgs {
    pub res: Result<Seq<TypeView>, TypeErrorView>,
    pub map: Map<Typable, TypeView>,
}

/// The type an annotation denotes, its error placed at the mention.
pub open spec fn spec_lookup_type(m: TypeMention) -> Result<TypeView, TypeErrorView> {
    match spec_build_type(m) {
        Result::Ok(t) => Result::Ok(t),
        Result::Err(e) => Result::Err(
            TypeErrorView::Localized(LocalizedView { error: e, position: m.spec_pos() }),
        ),
    }
}

/// The type of a declared name: its annotation's type, or
/// `Unspecified` when unannotated.
pub open spec fn spec_lookup_type_of(tn: TypedName) -> Result<TypeView, TypeErrorView> {
    match tn.annotation {
        Option::Some(m) => spec_lookup_type(m),
        Option::None => Result::Ok(TypeView::Unspecified),
    }
}

/// The declared types of a parameter list, or the first error.
pub open spec fn spec_param_types(args: Seq<TypedName>) -> Result<Seq<TypeView>, TypeErrorView>
    decreases args.len(),
{
    if args.len() == 0 {
        Result::Ok(Seq::empty())
    } else {
        match spec_lookup_type_of(args[0]) {
            Result::Err(e) => Result::Err(e),
            Result::Ok(t) => match spec_param_types(args.drop_first()) {
                Result::Err(e) => Result::Err(e),
                Result::Ok(rest) => Result::Ok(seq![t] + rest),
            },
        }
    }
}

/// The callable signature a declaration head denotes.
pub open spec fn spec_signature(
    args: Seq<TypedName>,
    vararg: Option<TypedName>,
    ret: TypeView,
) -> Result<TypeView, TypeErrorView> {
    match spec_param_types(args) {
        Result::Err(e) => Result::Err(e),
        Result::Ok(ats) => match vararg {
            Option::Some(tn) => match spec_lookup_type_of(tn) {
                Result::Err(e) => Result::Err(e),
                Result::Ok(v) => Result::Ok(
                    TypeView::Callable {
                        arguments: ats,
                        vararg: Option::Some(Box::new(v)),
                        ret: Box::new(ret),
                    },
                ),
            },
            Option::None => Result::Ok(
                TypeView::Callable { arguments: ats, vararg: Option::None, ret: Box::new(ret) },
            ),
        },
    }
}

/// Binds the declared types of a function's parameters (and vararg)
/// in the type map, keyed by their declaration slots.
pub open spec fn spec_bind_params(
    fid: usize,
    args: Seq<TypedName>,
    vararg: Option<TypedName>,
    m: Map<Typable, TypeView>,
    i: int,
) -> TcOut
    decreases args.len() - i,
{
    if i < 0 || i >= args.len() {
        match vararg {
            Option::Some(tn) => match spec_lookup_type_of(tn) {
                Result::Err(e) => TcOut { res: Result::Err(e), map: m },
                Result::Ok(t) => TcOut {
                    res: Result::Ok(TypeView::Nothing),
                    map: m.insert(
                        Typable::Definition(
                            DefKey { node: fid, slot: (args.len() + 1) as usize },
                        ),
                        t,
                    ),
                },
            },
            Option::None => TcOut { res: Result::Ok(TypeView::Nothing), map: m },
        }
    } else {
        match spec_lookup_type_of(args[i]) {
            Result::Err(e) => TcOut { res: Result::Err(e), map: m },
            Result::Ok(t) => spec_bind_params(
                fid,
                args,
                vararg,
                m.insert(Typable::Definition(DefKey { node: fid, slot: (i + 1) as usize }), t),
                i + 1,
            ),
        }
    }
}

/// The pre-declaration pass over a block's statements: assigns every
/// `var` its annotated type and every function declaration its full
/// signature before any statement body is checked, so that forward and
/// mutual references within the block type-check.
pub open spec fn spec_predef(
    ast: Ast,
    stmts: Seq<usize>,
    m: Map<Typable, TypeView>,
    i: int,
) -> TcOut
    decreases stmts.len() - i,
{
    if i < 0 || i >= stmts.len() {
        TcOut { res: Result::Ok(TypeView::Nothing), map: m }
    } else {
        let sid = stmts[i];
        match ast.nodes@[sid as int] {
            AstNode::VarDeclaration { name, .. } => match spec_lookup_type_of(name) {
                Result::Err(e) => TcOut { res: Result::Err(e), map: m },
                Result::Ok(t) => spec_predef(
                    ast,
                    stmts,
                    m.insert(Typable::Definition(DefKey { node: sid, slot: 0 }), t),
                    i + 1,
                ),
            },
            AstNode::FunctionDeclaration { arguments, vararg, ret, .. } => {
                let rt = match ret {
                    Option::Some(mention) => spec_lookup_type(mention),
                    Option::None => Result::Ok(TypeView::Unspecified),
                };
                match rt {
                    Result::Err(e) => TcOut { res: Result::Err(e), map: m },
                    Result::Ok(rv) => match spec_signature(arguments@, vararg, rv) {
                        Result::Err(e) => TcOut { res: Result::Err(e), map: m },
                        Result::Ok(sig) => spec_predef(
                            ast,
                            stmts,
                            m.insert(Typable::Definition(DefKey { node: sid, slot: 0 }), sig),
                            i + 1,
                        ),
                    },
                }
            },
            _ => spec_predef(ast, stmts, m, i + 1),
        }
    }
}

/// Checks one expression node and records its type on success.
pub open spec fn spec_check_expr(
    ast: Ast,
    ann: AnnView,
    m: Map<Typable, TypeView>,
    id: usize,
) -> TcOut
    decreases id, 3int, 0int,
{
    let out = spec_check_expr_inner(ast, ann, m, id);
    match out.res {
        Result::Ok(t) => TcOut { res: Result::Ok(t), map: out.map.insert(Typable::Expr(id), t) },
        Result::Err(e) => out,
    }
}

/// The typing rule for each expression form.
pub open spec fn spec_check_expr_inner(
    ast: Ast,
    ann: AnnView,
    m: Map<Typable, TypeView>,
    id: usize,
) -> TcOut
    decreases id, 2int, 0int,
    when node_children_bounded(ast, id)
{
    match ast.nodes@[id as int] {
        AstNode::NumberLiteral(_) => TcOut { res: Result::Ok(TypeView::Int), map: m },
        AstNode::FloatLiteral(_) => TcOut { res: Result::Ok(TypeView::Float), map: m },
        AstNode::BoolLiteral(_) => TcOut { res: Result::Ok(TypeView::Bool), map: m },
        AstNode::StringLiteral(_) => TcOut { res: Result::Ok(TypeView::Str), map: m },
        AstNode::Name(_) => TcOut {
            res: Result::Ok(
                if ann.defs.contains_key(id) {
                    spec_type_of(m, Typable::Definition(ann.defs[id]))
                } else {
                    TypeView::Unspecified
                },
            ),
            map: m,
        },
        AstNode::Binary { op, left, right } => {
            let lo = spec_check_expr(ast, ann, m, left);
            match lo.res {
                Result::Err(e) => lo,
                Result::Ok(lt) => {
                    let ro = spec_check_expr(ast, ann, lo.map, right);
                    match ro.res {
                        Result::Err(e) => ro,
                        Result::Ok(rt) => TcOut {
                            res: binary_result(op@, lt, rt),
                            map: ro.map,
                        },
                    }
                },
            }
        },
        AstNode::Unary { operand, .. } => {
            let oo = spec_check_expr(ast, ann, m, operand);
            match oo.res {
                Result::Err(e) => oo,
                Result::Ok(_) => TcOut { res: Result::Ok(TypeView::Bool), map: oo.map },
            }
        },
        AstNode::Cond { condition, then_branch, else_branch } => {
            let co = spec_check_expr(ast, ann, m, condition);
            match co.res {
                Result::Err(e) => co,
                Result::Ok(ct) => {
                    if !compatible(ct, TypeView::Bool) {
                        TcOut {
                            res: Result::Err(
                                TypeErrorView::Localized(
                                    LocalizedView {
                                        error: SomewhereView::TypeMismatch {
                                            expected: TypeView::Bool,
                                            got: ct,
                                        },
                                        position: ast.spec_position_of(condition),
                                    },
                                ),
                            ),
                            map: co.map,
                        }
                    } else {
                        let to = spec_check_expr(ast, ann, co.map, then_branch);
                        match to.res {
                            Result::Err(e) => to,
                            Result::Ok(lt) => match else_branch {
                                Option::Some(eb) => {
                                    let eo = spec_check_expr(ast, ann, to.map, eb);
                                    match eo.res {
                                        Result::Err(e) => eo,
                                        Result::Ok(rt) => TcOut {
                                            res: Result::Ok(union_of(lt, rt)),
                                            map: eo.map,
                                        },
                                    }
                                },
                                Option::None => TcOut {
                                    res: Result::Ok(union_of(lt, TypeView::Nothing)),
                                    map: to.map,
                                },
                            },
                        }
                    }
                },
            }
        },
        AstNode::Block { statements, .. } => {
            let po = spec_predef(ast, statements@, m, 0);
            match po.res {
                Result::Err(e) => po,
                Result::Ok(_) => spec_check_stmts(ast, ann, po.map, id, statements@, 0),
            }
        },
        AstNode::SingleStatement(s) => spec_check_stmt(ast, ann, m, s),
        AstNode::Call { target, arguments } => {
            let to = spec_check_expr(ast, ann, m, target);
            match to.res {
                Result::Err(e) => to,
                Result::Ok(tt) => {
                    let ao = spec_check_args(ast, ann, to.map, id, arguments@, 0);
                    match ao.res {
                        Result::Err(e) => TcOut { res: Result::Err(e), map: ao.map },
                        Result::Ok(ats) => TcOut {
                            res: call_result(tt, ats, ast.spec_position_of(target)),
                            map: ao.map,
                        },
                    }
                },
            }
        },
        AstNode::PartialCall { target, arguments } => {
            let to = spec_check_expr(ast, ann, m, target);
            match to.res {
                Result::Err(e) => to,
                Result::Ok(_) => {
                    let ao = spec_check_opt_args(ast, ann, to.map, id, arguments@, 0);
                    match ao.res {
                        Result::Err(e) => ao,
                        Result::Ok(_) => TcOut {
                            res: Result::Ok(TypeView::Unspecified),
                            map: ao.map,
                        },
                    }
                },
            }
        },
        AstNode::AnonFunction { arguments, vararg, body, .. } => {
            let bo = spec_bind_params(id, arguments@, vararg, m, 0);
            match bo.res {
                Result::Err(e) => bo,
                Result::Ok(_) => {
                    let yo = spec_check_expr(ast, ann, bo.map, body);
                    match yo.res {
                        Result::Err(e) => yo,
                        Result::Ok(bt) => TcOut {
                            res: spec_signature(arguments@, vararg, bt),
                            map: yo.map,
                        },
                    }
                },
            }
        },
        AstNode::PropertyAccess { target, .. } => {
            let to = spec_check_expr(ast, ann, m, target);
            match to.res {
                Result::Err(e) => to,
                Result::Ok(_) => TcOut { res: Result::Ok(TypeView::Unspecified), map: to.map },
            }
        },
        AstNode::PropertyCheck { target, .. } => {
            let to = spec_check_expr(ast, ann, m, target);
            match to.res {
                Result::Err(e) => to,
                Result::Ok(_) => TcOut { res: Result::Ok(TypeView::Bool), map: to.map },
            }
        },
        _ => TcOut { res: Result::Ok(TypeView::Unspecified), map: m },
    }
}

/// Checks one statement node and records its type on success.
pub open spec fn spec_check_stmt(
    ast: Ast,
    ann: AnnView,
    m: Map<Typable, TypeView>,
    id: usize,
) -> TcOut
    decreases id, 3int, 0int,
{
    let out = spec_check_stmt_inner(ast, ann, m, id);
    match out.res {
        Result::Ok(t) => TcOut { res: Result::Ok(t), map: out.map.insert(Typable::Stmt(id), t) },
        Result::Err(e) => out,
    }
}

/// The typing rule for each statement form.
pub open spec fn spec_check_stmt_inner(
    ast: Ast,
    ann: AnnView,
    m: Map<Typable, TypeView>,
    id: usize,
) -> TcOut
    decreases id, 2int, 0int,
    when node_children_bounded(ast, id)
{
    match ast.nodes@[id as int] {
        AstNode::VarDeclaration { name, value } => match value {
            Option::None => TcOut { res: Result::Ok(TypeView::Nothing), map: m },
            Option::Some(v) => {
                let vo = spec_check_expr(ast, ann, m, v);
                match vo.res {
                    Result::Err(e) => vo,
                    Result::Ok(vt) => match spec_lookup_type_of(name) {
                        Result::Err(e) => TcOut { res: Result::Err(e), map: vo.map },
                        Result::Ok(expected) => {
                            if compatible(vt, expected) {
                                TcOut { res: Result::Ok(TypeView::Nothing), map: vo.map }
                            } else {
                                TcOut {
                                    res: Result::Err(
                                        TypeErrorView::Somewhere(
                                            SomewhereView::TypeMismatch { expected, got: vt },
                                        ),
                                    ),
                                    map: vo.map,
                                }
                            }
                        },
                    },
                }
            },
        },
        AstNode::Assignment { value, .. } => {
            let vo = spec_check_expr(ast, ann, m, value);
            match vo.res {
                Result::Err(e) => vo,
                Result::Ok(vt) => {
                    let dt = if ann.defs.contains_key(id) {
                        spec_type_of(vo.map, Typable::Definition(ann.defs[id]))
                    } else {
                        TypeView::Unspecified
                    };
                    if compatible(vt, dt) {
                        TcOut { res: Result::Ok(TypeView::Nothing), map: vo.map }
                    } else {
                        TcOut {
                            res: Result::Err(
                                TypeErrorView::Somewhere(
                                    SomewhereView::TypeMismatch { expected: dt, got: vt },
                                ),
                            ),
                            map: vo.map,
                        }
                    }
                },
            }
        },
        AstNode::Expression(e) => spec_check_expr(ast, ann, m, e),
        AstNode::Assert { keyword, value } => {
            let vo = spec_check_expr(ast, ann, m, value);
            match vo.res {
                Result::Err(e) => vo,
                Result::Ok(vt) => {
                    if compatible(vt, TypeView::Bool) {
                        TcOut { res: Result::Ok(TypeView::Nothing), map: vo.map }
                    } else {
                        TcOut {
                            res: Result::Err(
                                TypeErrorView::Localized(
                                    LocalizedView {
                                        error: SomewhereView::TypeMismatch {
                                            expected: TypeView::Bool,
                                            got: vt,
                                        },
                                        position: keyword.position,
                                    },
                                ),
                            ),
                            map: vo.map,
                        }
                    }
                },
            }
        },
        AstNode::Pass { .. } => TcOut { res: Result::Ok(TypeView::Nothing), map: m },
        AstNode::FunctionDeclaration { arguments, vararg, ret, body, .. } => {
            let bo = spec_bind_params(id, arguments@, vararg, m, 0);
            match bo.res {
                Result::Err(e) => bo,
                Result::Ok(_) => {
                    let yo = spec_check_expr(ast, ann, bo.map, body);
                    match yo.res {
                        Result::Err(e) => yo,
                        Result::Ok(bt) => {
                            let rt = match ret {
                                Option::Some(mention) => spec_lookup_type(mention),
                                Option::None => Result::Ok(TypeView::Nothing),
                            };
                            match rt {
                                Result::Err(e) => TcOut { res: Result::Err(e), map: yo.map },
                                Result::Ok(expected) => {
                                    if compatible(bt, expected) {
                                        TcOut {
                                            res: Result::Ok(TypeView::Nothing),
                                            map: yo.map,
                                        }
                                    } else {
                                        TcOut {
                                            res: Result::Err(
                                                TypeErrorView::Somewhere(
                                                    SomewhereView::TypeMismatch {
                                                        expected,
                                                        got: bt,
                                                    },
                                                ),
                                            ),
                                            map: yo.map,
                                        }
                                    }
                                },
                            }
                        },
                    }
                },
            }
        },
        AstNode::StructDeclaration { .. } => TcOut { res: Result::Ok(TypeView::Nothing), map: m },
        AstNode::EnumDeclaration { .. } => TcOut { res: Result::Ok(TypeView::Nothing), map: m },
        AstNode::Import { .. } => TcOut { res: Result::Ok(TypeView::Nothing), map: m },
        AstNode::PropertyAssignment { target, value } => {
            let to = spec_check_expr(ast, ann, m, target);
            match to.res {
                Result::Err(e) => to,
                Result::Ok(_) => {
                    let vo = spec_check_expr(ast, ann, to.map, value);
                    match vo.res {
                        Result::Err(e) => vo,
                        Result::Ok(_) => TcOut { res: Result::Ok(TypeView::Nothing), map: vo.map },
                    }
                },
            }
        },
        AstNode::ImplBlock { implementations, .. } => {
            let io = spec_check_stmts(ast, ann, m, id, implementations@, 0);
            match io.res {
                Result::Err(e) => io,
                Result::Ok(_) => TcOut { res: Result::Ok(TypeView::Nothing), map: io.map },
            }
        },
        _ => TcOut { res: Result::Ok(TypeView::Unspecified), map: m },
    }
}

/// Every child index this node holds is strictly below `id` (the part
/// of well-formedness that termination of the walk rests on).
pub open spec fn node_children_bounded(ast: Ast, id: usize) -> bool {
    id < ast.nodes@.len() && crate::ast::node_wf(ast.nodes@, id as int)
}

/// Checks the statements of a list in order; the result is the last
/// statement's type (`Nothing` for an empty list).
pub open spec fn spec_check_stmts(
    ast: Ast,
    ann: AnnView,
    m: Map<Typable, TypeView>,
    pid: usize,
    stmts: Seq<usize>,
    i: int,
) -> TcOut
    decreases pid, 1int, stmts.len() - i,
    when forall|j: int| 0 <= j < stmts.len() ==> (#[trigger] stmts[j]) < pid
{
    if i < 0 || i >= stmts.len() {
        TcOut { res: Result::Ok(TypeView::Nothing), map: m }
    } else {
        let so = spec_check_stmt(ast, ann, m, stmts[i]);
        match so.res {
            Result::Err(e) => so,
            Result::Ok(t) => {
                if i == stmts.len() - 1 {
                    so
                } else {
                    spec_check_stmts(ast, ann, so.map, pid, stmts, i + 1)
                }
            },
        }
    }
}

/// Checks a call's arguments in order, collecting their types.
pub open spec fn spec_check_args(
    ast: Ast,
    ann: AnnView,
    m: Map<Typable, TypeView>,
    pid: usize,
    args: Seq<usize>,
    i: int,
) -> TcArgs
    decreases pid, 1int, args.len() - i,
    when forall|j: int| 0 <= j < args.len() ==> (#[trigger] args[j]) < pid
{
    if i < 0 || i >= args.len() {
        TcArgs { res: Result::Ok(Seq::empty()), map: m }
    } else {
        let ao = spec_check_expr(ast, ann, m, args[i]);
        match ao.res {
            Result::Err(e) => TcArgs { res: Result::Err(e), map: ao.map },
            Result::Ok(t) => {
                let rest = spec_check_args(ast, ann, ao.map, pid, args, i + 1);
                match rest.res {
                    Result::Err(e) => rest,
                    Result::Ok(ts) => TcArgs { res: Result::Ok(seq![t] + ts), map: rest.map },
                }
            },
        }
    }
}

/// Walks a partial call's present arguments in order.
pub open spec fn spec_check_opt_args(
    ast: Ast,
    ann: AnnView,
    m: Map<Typable, TypeView>,
    pid: usize,
    args: Seq<Option<usize>>,
    i: int,
) -> TcOut
    decreases pid, 1int, args.len() - i,
    when forall|j: int| 0 <= j < args.len() ==> (match #[trigger] args[j] {
        Option::Some(a) => a < pid,
        Option::None => true,
    })
{
    if i < 0 || i >= args.len() {
        TcOut { res: Result::Ok(TypeView::Unspecified), map: m }
    } else {
        match args[i] {
            Option::Some(a) => {
                let ao = spec_check_expr(ast, ann, m, a);
                match ao.res {
                    Result::Err(e) => ao,
                    Result::Ok(_) => spec_check_opt_args(ast, ann, ao.map, pid, args, i + 1),
                }
            },
            Option::None => spec_check_opt_args(ast, ann, m, pid, args, i + 1),
        }
    }
}

/// The whole pass: pre-declare the program block's statements, then
/// check them in order; the outcome is the finished type map or the
/// first error.
pub open spec fn spec_typecheck(ast: Ast, ann: AnnView) -> Result<
    Map<Typable, TypeView>,
    TypeErrorView,
> {
    let stmts = match ast.nodes@[ast.root as int] {
        AstNode::Block { statements, .. } => statements@,
        _ => Seq::empty(),
    };
    let po = spec_predef(ast, stmts, Map::empty(), 0);
    match po.res {
        Result::Err(e) => Result::Err(e),
        Result::Ok(_) => {
            let so = spec_check_stmts(ast, ann, po.map, ast.root, stmts, 0);
            match so.res {
                Result::Err(e) => Result::Err(e),
                Result::Ok(_) => Result::Ok(so.map),
            }
        },
    }
}


// ---------------------------------------------------------------
// The checker.
// ---------------------------------------------------------------

/// The second pass. It borrows the annotation store built by the
/// resolver and accumulates the type map.
pub struct Checker<'a> {
    pub annotations: &'a Annotations,
    pub type_map: Typemap,
}

impl<'a> Checker<'a> {
    /// A fresh checker over a resolved program's annotations.
    pub fn new(annotations: &'a Annotations) -> (r: Checker<'a>)
        ensures
            r.annotations == annotations,
            r.type_map@ == Map::<Typable, TypeView>::empty(),
            r.type_map.wf(),
    {
        Checker { annotations, type_map: Typemap::new() }
    }

    /// Demands that a provided type fits an expected one.
    fn check_expectation(provided: &Type, expected: &Type) -> (r: Result<(), SomewhereTypeError>)
        ensures
            (match r {
                Result::Ok(_) => compatible(provided@, expected@),
                Result::Err(e) => !compatible(provided@, expected@) && e@
                    == (SomewhereView::TypeMismatch { expected: expected@, got: provided@ }),
            }),
    {
        if is_compatible(provided, expected) {
            Result::Ok(())
        } else {
            Result::Err(
                SomewhereTypeError::TypeMismatch {
                    expected: clone_type(expected),
                    got: clone_type(provided),
                },
            )
        }
    }

    /// Resolves a written type annotation, reporting failure at the
    /// mention's position.
    fn lookup_type(&self, mention: &TypeMention) -> (r: Result<Type, TypeError>)
        ensures
            (match r {
                Result::Ok(t) => spec_lookup_type(*mention) matches Result::Ok(tv) && t@ == tv,
                Result::Err(e) => spec_lookup_type(*mention) matches Result::Err(ev) && e@ == ev,
            }),
    {
        match build_type(mention) {
            Result::Ok(t) => Result::Ok(t),
            Result::Err(e) => {
                let p = mention.get_pos();
                Result::Err(TypeError::LocalizedError(e.at(p)))
            },
        }
    }

    /// The declared type of a name, `Unspecified` when unannotated.
    fn lookup_type_of(&self, name: &TypedName) -> (r: Result<Type, TypeError>)
        ensures
            (match r {
                Result::Ok(t) => spec_lookup_type_of(*name) matches Result::Ok(tv) && t@ == tv,
                Result::Err(e) => spec_lookup_type_of(*name) matches Result::Err(ev) && e@ == ev,
            }),
    {
        match &name.annotation {
            Option::Some(m) => self.lookup_type(m),
            Option::None => Result::Ok(Type::Unspecified),
        }
    }

    /// Builds the callable signature of a declaration head.
    fn build_function_type(
        &self,
        args: &Vec<TypedName>,
        vararg: &Option<TypedName>,
        ret: Type,
    ) -> (r: Result<Type, TypeError>)
        ensures
            (match r {
                Result::Ok(t) => spec_signature(args@, *vararg, type_view(ret)) matches Result::Ok(
                    tv,
                ) && t@ == tv,
                Result::Err(e) => spec_signature(args@, *vararg, type_view(ret)) matches Result::Err(
                    ev,
                ) && e@ == ev,
            }),
    {
        let ghost rv = type_view(ret);
        let mut out: Vec<Type> = Vec::new();
        proof {
            assert(type_seq_view(out@) =~= Seq::<TypeView>::empty());
            assert(args@.skip(0) =~= args@);
        }
        let mut i: usize = 0;
        while i < args.len()
            invariant
                i <= args@.len(),
                spec_param_types(args@) == (match spec_param_types(args@.skip(i as int)) {
                    Result::Ok(rest) => Result::<Seq<TypeView>, TypeErrorView>::Ok(
                        type_seq_view(out@) + rest,
                    ),
                    Result::Err(e) => Result::<Seq<TypeView>, TypeErrorView>::Err(e),
                }),
            decreases args@.len() - i,
        {
            proof {
                assert(args@.skip(i as int)[0] == args@[i as int]);
                assert(args@.skip(i as int).drop_first() =~= args@.skip(i as int + 1));
            }
            match self.lookup_type_of(&args[i]) {
                Result::Ok(t) => {
                    let ghost before = out@;
                    out.push(t);
                    proof {
                        crate::types::lemma_type_seq_view_push(before, out@.last());
                        assert(before.push(out@.last()) =~= out@);
                        match spec_param_types(args@.skip(i as int + 1)) {
                            Result::Ok(rest) => {
                                assert(type_seq_view(before) + (seq![type_seq_view(out@).last()]
                                    + rest) =~= type_seq_view(out@) + rest);
                            },
                            Result::Err(_) => {},
                        }
                    }
                },
                Result::Err(e) => {
                    return Result::Err(e);
                },
            }
            i = i + 1;
        }
        proof {
            assert(args@.skip(args@.len() as int) =~= Seq::<TypedName>::empty());
            assert(type_seq_view(out@) + Seq::<TypeView>::empty() =~= type_seq_view(out@));
        }
        let vb: Option<Box<Type>> = match vararg {
            Option::Some(tn) => match self.lookup_type_of(tn) {
                Result::Ok(v) => Option::Some(Box::new(v)),
                Result::Err(e) => {
                    return Result::Err(e);
                },
            },
            Option::None => Option::None,
        };
        Result::Ok(Type::Callable(CallableType { arguments: out, vararg: vb, ret: Box::new(ret) }))
    }

    /// Binds the declared types of a function's parameters and vararg
    /// under their declaration slots.
    fn bind_params(
        &mut self,
        fid: usize,
        args: &Vec<TypedName>,
        vararg: &Option<TypedName>,
    ) -> (r: Result<(), TypeError>)
        requires
            old(self).annotations.wf(),
            old(self).type_map.wf(),
            args@.len() < usize::MAX,
        ensures
            final(self).annotations == old(self).annotations,
            final(self).type_map.wf(),
            ({
                let out = spec_bind_params(fid, args@, *vararg, old(self).type_map@, 0);
                match r {
                    Result::Ok(_) => out.res is Ok && final(self).type_map@ == out.map,
                    Result::Err(e) => out.res matches Result::Err(ev) && e@ == ev
                        && final(self).type_map@ == out.map,
                }
            }),
    {
        let ghost m0 = self.type_map@;
        let mut i: usize = 0;
        while i < args.len()
            invariant
                i <= args@.len(),
                args@.len() < usize::MAX,
                self.annotations == old(self).annotations,
                self.annotations.wf(),
                self.type_map.wf(),
                spec_bind_params(fid, args@, *vararg, old(self).type_map@, 0) == spec_bind_params(
                    fid,
                    args@,
                    *vararg,
                    self.type_map@,
                    i as int,
                ),
            decreases args@.len() - i,
        {
            match self.lookup_type_of(&args[i]) {
                Result::Ok(t) => {
                    self.type_map.add_definition(DefKey { node: fid, slot: i + 1 }, t);
                },
                Result::Err(e) => {
                    return Result::Err(e);
                },
            }
            i = i + 1;
        }
        match vararg {
            Option::Some(tn) => match self.lookup_type_of(tn) {
                Result::Ok(t) => {
                    self.type_map.add_definition(
                        DefKey { node: fid, slot: args.len() + 1 },
                        t,
                    );
                    Result::Ok(())
                },
                Result::Err(e) => Result::Err(e),
            },
            Option::None => Result::Ok(()),
        }
    }

    /// The pre-declaration pass over one statement list; see
    /// `spec_predef`.
    fn perform_block_predef(&mut self, ast: &Ast, stmts: &Vec<usize>) -> (r: Result<(), TypeError>)
        requires
            ast.wf(),
            forall|j: int| 0 <= j < stmts@.len() ==> (#[trigger] stmts@[j]) < ast.nodes@.len(),
            old(self).annotations.wf(),
            old(self).type_map.wf(),
        ensures
            final(self).annotations == old(self).annotations,
            final(self).type_map.wf(),
            ({
                let out = spec_predef(*ast, stmts@, old(self).type_map@, 0);
                match r {
                    Result::Ok(_) => out.res is Ok && final(self).type_map@ == out.map,
                    Result::Err(e) => out.res matches Result::Err(ev) && e@ == ev
                        && final(self).type_map@ == out.map,
                }
            }),
    {
        let ghost m0 = self.type_map@;
        let mut i: usize = 0;
        while i < stmts.len()
            invariant
                i <= stmts@.len(),
                ast.wf(),
                forall|j: int| 0 <= j < stmts@.len() ==> (#[trigger] stmts@[j]) < ast.nodes@.len(),
                self.annotations == old(self).annotations,
                self.annotations.wf(),
                self.type_map.wf(),
                spec_predef(*ast, stmts@, old(self).type_map@, 0) == spec_predef(
                    *ast,
                    stmts@,
                    self.type_map@,
                    i as int,
                ),
            decreases stmts@.len() - i,
        {
            let sid = stmts[i];
            match &ast.nodes[sid] {
                AstNode::VarDeclaration { name, .. } => {
                    match self.lookup_type_of(name) {
                        Result::Ok(t) => {
                            self.type_map.add_definition(DefKey { node: sid, slot: 0 }, t);
                        },
                        Result::Err(e) => {
                            return Result::Err(e);
                        },
                    }
                },
                AstNode::FunctionDeclaration { arguments, vararg, ret, .. } => {
                    let rt = match ret {
                        Option::Some(m) => match self.lookup_type(m) {
                            Result::Ok(t) => t,
                            Result::Err(e) => {
                                return Result::Err(e);
                            },
                        },
                        Option::None => Type::Unspecified,
                    };
                    match self.build_function_type(arguments, vararg, rt) {
                        Result::Ok(sig) => {
                            self.type_map.add_definition(DefKey { node: sid, slot: 0 }, sig);
                        },
                        Result::Err(e) => {
                            return Result::Err(e);
                        },
                    }
                },
                _ => {},
            }
            i = i + 1;
        }
        Result::Ok(())
    }
}


impl<'a> Checker<'a> {
    /// Computes and records the type of the expression node `id`;
    /// see `spec_check_expr`.
    #[verifier::loop_isolation(false)]
    pub fn visit_expr(&mut self, ast: &Ast, id: usize) -> (r: Result<Type, TypeError>)
        requires
            ast.wf(),
            id < ast.nodes@.len(),
            ast.nodes@[id as int].is_expr(),
            old(self).annotations.wf(),
            old(self).type_map.wf(),
        ensures
            final(self).annotations == old(self).annotations,
            final(self).type_map.wf(),
            ({
                let out = spec_check_expr(*ast, old(self).annotations@, old(self).type_map@, id);
                match r {
                    Result::Ok(t) => out.res matches Result::Ok(tv) && t@ == tv
                        && final(self).type_map@ == out.map,
                    Result::Err(e) => out.res matches Result::Err(ev) && e@ == ev
                        && final(self).type_map@ == out.map,
                }
            }),
        decreases id,
    {
        proof {
            assert(node_wf(ast.nodes@, id as int));
            assert(node_children_bounded(*ast, id));
        }
        let t: Type = match &ast.nodes[id] {
            AstNode::NumberLiteral(_) => Type::Int,
            AstNode::FloatLiteral(_) => Type::Float,
            AstNode::BoolLiteral(_) => Type::Bool,
            AstNode::StringLiteral(_) => Type::Str,
            AstNode::Name(_) => match self.annotations.get_definition(id) {
                Option::Some(d) => self.type_map.type_of(Typable::Definition(d)),
                Option::None => Type::Unspecified,
            },
            AstNode::Binary { op, left, right } => {
                let lt = match self.visit_expr(ast, *left) {
                    Result::Ok(t) => t,
                    Result::Err(e) => {
                        return Result::Err(e);
                    },
                };
                let rt = match self.visit_expr(ast, *right) {
                    Result::Ok(t) => t,
                    Result::Err(e) => {
                        return Result::Err(e);
                    },
                };
                let eq_op = op.kind == TokenKind::CompareEquals || op.kind
                    == TokenKind::CompareNotEquals;
                if eq_op {
                    Type::Bool
                } else if lt.is_unspecified() || rt.is_unspecified() {
                    Type::Unspecified
                } else if op.kind == TokenKind::Mod && lt.is_int() && rt.is_int() {
                    Type::Int
                } else if (op.kind == TokenKind::Or || op.kind == TokenKind::And) && lt.is_bool()
                    && rt.is_bool() {
                    Type::Bool
                } else if op.kind == TokenKind::Minus || op.kind == TokenKind::Star || op.kind
                    == TokenKind::Slash || op.kind == TokenKind::Power {
                    match number_upcast_binary_op(&lt, &rt) {
                        Result::Ok(t) => t,
                        Result::Err(e) => {
                            return Result::Err(TypeError::LocalizedError(e.at(op.position)));
                        },
                    }
                } else if op.kind == TokenKind::Plus {
                    if lt.is_str() && rt.is_str() {
                        Type::Str
                    } else {
                        match number_upcast_binary_op(&lt, &rt) {
                            Result::Ok(t) => t,
                            Result::Err(e) => {
                                return Result::Err(TypeError::LocalizedError(e.at(op.position)));
                            },
                        }
                    }
                } else if op.kind == TokenKind::CompareGreater || op.kind
                    == TokenKind::CompareGreaterEqual || op.kind == TokenKind::CompareLess
                    || op.kind == TokenKind::CompareLessEqual {
                    if lt.is_str() && rt.is_str() {
                        Type::Bool
                    } else {
                        match number_upcast_binary_op(&lt, &rt) {
                            Result::Ok(_) => Type::Bool,
                            Result::Err(e) => {
                                return Result::Err(TypeError::LocalizedError(e.at(op.position)));
                            },
                        }
                    }
                } else if op.kind == TokenKind::Or || op.kind == TokenKind::And {
                    build_union(lt, rt)
                } else {
                    let op_copy = Token {
                        kind: op.kind,
                        position: op.position,
                        text: op.text.clone(),
                    };
                    return Result::Err(
                        TypeError::LocalizedError(
                            SomewhereTypeError::UnspecifiedBinary {
                                left: lt,
                                op: op_copy,
                                right: rt,
                            }.at(op.position),
                        ),
                    );
                }
            },
            AstNode::Unary { operand, .. } => {
                match self.visit_expr(ast, *operand) {
                    Result::Ok(_) => Type::Bool,
                    Result::Err(e) => {
                        return Result::Err(e);
                    },
                }
            },
            AstNode::Cond { condition, then_branch, else_branch } => {
                let ct = match self.visit_expr(ast, *condition) {
                    Result::Ok(t) => t,
                    Result::Err(e) => {
                        return Result::Err(e);
                    },
                };
                match Self::check_expectation(&ct, &Type::Bool) {
                    Result::Ok(_) => {},
                    Result::Err(e) => {
                        let p = ast.position_of(*condition);
                        return Result::Err(TypeError::LocalizedError(e.at(p)));
                    },
                }
                let lt = match self.visit_expr(ast, *then_branch) {
                    Result::Ok(t) => t,
                    Result::Err(e) => {
                        return Result::Err(e);
                    },
                };
                let rt = match else_branch {
                    Option::Some(eb) => match self.visit_expr(ast, *eb) {
                        Result::Ok(t) => t,
                        Result::Err(e) => {
                            return Result::Err(e);
                        },
                    },
                    Option::None => Type::Nothing,
                };
                build_union(lt, rt)
            },
            AstNode::Block { statements, .. } => {
                match self.perform_block_predef(ast, statements) {
                    Result::Ok(_) => {},
                    Result::Err(e) => {
                        return Result::Err(e);
                    },
                }
                let n = statements.len();
                let mut k: usize = 0;
                while k < n - 1
                    invariant
                        ast.wf(),
                        id < ast.nodes@.len(),
                        ast.nodes@[id as int].is_expr(),
                        node_children_bounded(*ast, id),
                        1 <= n,
                        n == statements@.len(),
                        k <= n - 1,
                        forall|j: int|
                            0 <= j < statements@.len() ==> (#[trigger] statements@[j]) < id
                                && ast.nodes@[statements@[j] as int].is_stmt(),
                        self.annotations == old(self).annotations,
                        self.annotations.wf(),
                        self.type_map.wf(),
                        ({
                            let po = spec_predef(*ast, statements@, old(self).type_map@, 0);
                            po.res is Ok && spec_check_stmts(
                                *ast,
                                self.annotations@,
                                po.map,
                                id,
                                statements@,
                                0,
                            ) == spec_check_stmts(
                                *ast,
                                self.annotations@,
                                self.type_map@,
                                id,
                                statements@,
                                k as int,
                            )
                        }),
                    decreases n - 1 - k,
                {
                    match self.visit_stmt(ast, statements[k]) {
                        Result::Ok(_) => {},
                        Result::Err(e) => {
                            return Result::Err(e);
                        },
                    }
                    k = k + 1;
                }
                match self.visit_stmt(ast, statements[n - 1]) {
                    Result::Ok(t) => t,
                    Result::Err(e) => {
                        return Result::Err(e);
                    },
                }
            },
            AstNode::SingleStatement(st) => {
                match self.visit_stmt(ast, *st) {
                    Result::Ok(t) => t,
                    Result::Err(e) => {
                        return Result::Err(e);
                    },
                }
            },
            AstNode::Call { target, arguments } => {
                let tt = match self.visit_expr(ast, *target) {
                    Result::Ok(t) => t,
                    Result::Err(e) => {
                        return Result::Err(e);
                    },
                };
                let ghost m1 = self.type_map@;
                let mut ats: Vec<Type> = Vec::new();
                proof {
                    assert(type_seq_view(ats@) =~= Seq::<TypeView>::empty());
                }
                let mut k: usize = 0;
                while k < arguments.len()
                    invariant
                        ast.wf(),
                        id < ast.nodes@.len(),
                        node_children_bounded(*ast, id),
                        k <= arguments@.len(),
                        forall|j: int|
                            0 <= j < arguments@.len() ==> (#[trigger] arguments@[j]) < id
                                && ast.nodes@[arguments@[j] as int].is_expr(),
                        self.annotations == old(self).annotations,
                        self.annotations.wf(),
                        self.type_map.wf(),
                        ({
                            let full = spec_check_args(
                                *ast,
                                self.annotations@,
                                m1,
                                id,
                                arguments@,
                                0,
                            );
                            let rest = spec_check_args(
                                *ast,
                                self.annotations@,
                                self.type_map@,
                                id,
                                arguments@,
                                k as int,
                            );
                            match rest.res {
                                Result::Ok(ts) => full == (TcArgs {
                                    res: Result::Ok(type_seq_view(ats@) + ts),
                                    map: rest.map,
                                }),
                                Result::Err(_) => full == rest,
                            }
                        }),
                    decreases arguments@.len() - k,
                {
                    match self.visit_expr(ast, arguments[k]) {
                        Result::Ok(at) => {
                            let ghost before = ats@;
                            ats.push(at);
                            proof {
                                crate::types::lemma_type_seq_view_push(before, ats@.last());
                                assert(before.push(ats@.last()) =~= ats@);
                                let rest2 = spec_check_args(
                                    *ast,
                                    self.annotations@,
                                    self.type_map@,
                                    id,
                                    arguments@,
                                    k as int + 1,
                                );
                                match rest2.res {
                                    Result::Ok(ts) => {
                                        assert(type_seq_view(before) + (seq![
                                            type_seq_view(ats@).last(),
                                        ] + ts) =~= type_seq_view(ats@) + ts);
                                    },
                                    Result::Err(_) => {},
                                }
                            }
                        },
                        Result::Err(e) => {
                            return Result::Err(e);
                        },
                    }
                    k = k + 1;
                }
                proof {
                    assert(type_seq_view(ats@) + Seq::<TypeView>::empty() =~= type_seq_view(ats@));
                }
                let pos = ast.position_of(*target);
                match tt {
                    Type::Unspecified => Type::Unspecified,
                    Type::Union(_) => Type::Unspecified,
                    Type::Callable(c) => {
                        proof {
                            lemma_type_seq_view(c.arguments@);
                            lemma_type_seq_view(ats@);
                        }
                        let a = Arity {
                            required: c.arguments.len(),
                            has_vararg: c.vararg.is_some(),
                        };
                        if !a.accepts(ats.len()) {
                            return Result::Err(
                                TypeError::LocalizedError(
                                    SomewhereTypeError::ArityMismatch {
                                        expected: a,
                                        got: ats.len(),
                                    }.at(pos),
                                ),
                            );
                        }
                        let ghost pv = type_seq_view(c.arguments@);
                        let ghost vv: Option<Box<TypeView>> = match &c.vararg {
                            Option::Some(b) => Option::Some(Box::new(type_view(**b))),
                            Option::None => Option::None,
                        };
                        let ghost av = type_seq_view(ats@);
                        let mut j: usize = 0;
                        while j < ats.len()
                            invariant
                                j <= ats@.len(),
                                av == type_seq_view(ats@),
                                av.len() == ats@.len(),
                                forall|x: int|
                                    0 <= x < ats@.len() ==> av[x] == type_view(ats@[x]),
                                pv == type_seq_view(c.arguments@),
                                pv.len() == c.arguments@.len(),
                                forall|x: int|
                                    0 <= x < c.arguments@.len() ==> pv[x] == type_view(
                                        c.arguments@[x],
                                    ),
                                vv == (match &c.vararg {
                                    Option::Some(b) => Option::Some(Box::new(type_view(**b))),
                                    Option::None => Option::<Box<TypeView>>::None,
                                }),
                                c.vararg is None ==> ats@.len() == c.arguments@.len(),
                                first_arg_mismatch(pv, vv, av, 0) == first_arg_mismatch(
                                    pv,
                                    vv,
                                    av,
                                    j as int,
                                ),
                            decreases ats@.len() - j,
                        {
                            let expected_ref: &Type = if j < c.arguments.len() {
                                &c.arguments[j]
                            } else {
                                match &c.vararg {
                                    Option::Some(b) => b,
                                    Option::None => {
                                        proof {
                                            assert(false);
                                        }
                                        &c.ret
                                    },
                                }
                            };
                            proof {
                                assert(expected_ref@ == expected_param(pv, vv, j as int));
                            }
                            match Self::check_expectation(&ats[j], expected_ref) {
                                Result::Ok(_) => {},
                                Result::Err(e) => {
                                    return Result::Err(TypeError::Somewhere(e));
                                },
                            }
                            j = j + 1;
                        }
                        clone_type(&c.ret)
                    },
                    other => {
                        return Result::Err(
                            TypeError::LocalizedError(
                                SomewhereTypeError::OperationUnsupported {
                                    target: other,
                                    message: String::from_str("cannot call"),
                                }.at(pos),
                            ),
                        );
                    },
                }
            },
            AstNode::PartialCall { target, arguments } => {
                match self.visit_expr(ast, *target) {
                    Result::Ok(_) => {},
                    Result::Err(e) => {
                        return Result::Err(e);
                    },
                }
                let ghost m1 = self.type_map@;
                let mut k: usize = 0;
                while k < arguments.len()
                    invariant
                        ast.wf(),
                        id < ast.nodes@.len(),
                        node_children_bounded(*ast, id),
                        k <= arguments@.len(),
                        forall|j: int|
                            0 <= j < arguments@.len() ==> (match #[trigger] arguments@[j] {
                                Option::Some(a) => a < id && ast.nodes@[a as int].is_expr(),
                                Option::None => true,
                            }),
                        self.annotations == old(self).annotations,
                        self.annotations.wf(),
                        self.type_map.wf(),
                        spec_check_opt_args(*ast, self.annotations@, m1, id, arguments@, 0)
                            == spec_check_opt_args(
                            *ast,
                            self.annotations@,
                            self.type_map@,
                            id,
                            arguments@,
                            k as int,
                        ),
                    decreases arguments@.len() - k,
                {
                    match arguments[k] {
                        Option::Some(a) => {
                            match self.visit_expr(ast, a) {
                                Result::Ok(_) => {},
                                Result::Err(e) => {
                                    return Result::Err(e);
                                },
                            }
                        },
                        Option::None => {},
                    }
                    k = k + 1;
                }
                Type::Unspecified
            },
            AstNode::AnonFunction { arguments, vararg, body, .. } => {
                match self.bind_params(id, arguments, vararg) {
                    Result::Ok(_) => {},
                    Result::Err(e) => {
                        return Result::Err(e);
                    },
                }
                let bt = match self.visit_expr(ast, *body) {
                    Result::Ok(t) => t,
                    Result::Err(e) => {
                        return Result::Err(e);
                    },
                };
                match self.build_function_type(arguments, vararg, bt) {
                    Result::Ok(t) => t,
                    Result::Err(e) => {
                        return Result::Err(e);
                    },
                }
            },
            AstNode::PropertyAccess { target, .. } => {
                match self.visit_expr(ast, *target) {
                    Result::Ok(_) => Type::Unspecified,
                    Result::Err(e) => {
                        return Result::Err(e);
                    },
                }
            },
            AstNode::PropertyCheck { target, .. } => {
                match self.visit_expr(ast, *target) {
                    Result::Ok(_) => Type::Bool,
                    Result::Err(e) => {
                        return Result::Err(e);
                    },
                }
            },
            _ => unreached(),
        };
        let tc = clone_type(&t);
        self.type_map.add_expr(id, tc);
        Result::Ok(t)
    }

    /// Computes and records the type of the statement node `id`;
    /// see `spec_check_stmt`.
    #[verifier::loop_isolation(false)]
    pub fn visit_stmt(&mut self, ast: &Ast, id: usize) -> (r: Result<Type, TypeError>)
        requires
            ast.wf(),
            id < ast.nodes@.len(),
            ast.nodes@[id as int].is_stmt(),
            old(self).annotations.wf(),
            old(self).type_map.wf(),
        ensures
            final(self).annotations == old(self).annotations,
            final(self).type_map.wf(),
            ({
                let out = spec_check_stmt(*ast, old(self).annotations@, old(self).type_map@, id);
                match r {
                    Result::Ok(t) => out.res matches Result::Ok(tv) && t@ == tv
                        && final(self).type_map@ == out.map,
                    Result::Err(e) => out.res matches Result::Err(ev) && e@ == ev
                        && final(self).type_map@ == out.map,
                }
            }),
        decreases id,
    {
        proof {
            assert(node_wf(ast.nodes@, id as int));
            assert(node_children_bounded(*ast, id));
        }
        let t: Type = match &ast.nodes[id] {
            AstNode::VarDeclaration { name, value } => match value {
                Option::None => Type::Nothing,
                Option::Some(v) => {
                    let vt = match self.visit_expr(ast, *v) {
                        Result::Ok(t) => t,
                        Result::Err(e) => {
                            return Result::Err(e);
                        },
                    };
                    let expected = match self.lookup_type_of(name) {
                        Result::Ok(t) => t,
                        Result::Err(e) => {
                            return Result::Err(e);
                        },
                    };
                    match Self::check_expectation(&vt, &expected) {
                        Result::Ok(_) => Type::Nothing,
                        Result::Err(e) => {
                            return Result::Err(TypeError::Somewhere(e));
                        },
                    }
                },
            },
            AstNode::Assignment { value, .. } => {
                let vt = match self.visit_expr(ast, *value) {
                    Result::Ok(t) => t,
                    Result::Err(e) => {
                        return Result::Err(e);
                    },
                };
                let dt = match self.annotations.get_definition(id) {
                    Option::Some(d) => self.type_map.type_of(Typable::Definition(d)),
                    Option::None => Type::Unspecified,
                };
                match Self::check_expectation(&vt, &dt) {
                    Result::Ok(_) => Type::Nothing,
                    Result::Err(e) => {
                        return Result::Err(TypeError::Somewhere(e));
                    },
                }
            },
            AstNode::Expression(e) => {
                match self.visit_expr(ast, *e) {
                    Result::Ok(t) => t,
                    Result::Err(e2) => {
                        return Result::Err(e2);
                    },
                }
            },
            AstNode::Assert { keyword, value } => {
                let vt = match self.visit_expr(ast, *value) {
                    Result::Ok(t) => t,
                    Result::Err(e) => {
                        return Result::Err(e);
                    },
                };
                match Self::check_expectation(&vt, &Type::Bool) {
                    Result::Ok(_) => Type::Nothing,
                    Result::Err(e) => {
                        return Result::Err(TypeError::LocalizedError(e.at(keyword.position)));
                    },
                }
            },
            AstNode::Pass { .. } => Type::Nothing,
            AstNode::FunctionDeclaration { arguments, vararg, ret, body, .. } => {
                match self.bind_params(id, arguments, vararg) {
                    Result::Ok(_) => {},
                    Result::Err(e) => {
                        return Result::Err(e);
                    },
                }
                let bt = match self.visit_expr(ast, *body) {
                    Result::Ok(t) => t,
                    Result::Err(e) => {
                        return Result::Err(e);
                    },
                };
                let expected = match ret {
                    Option::Some(m) => match self.lookup_type(m) {
                        Result::Ok(t) => t,
                        Result::Err(e) => {
                            return Result::Err(e);
                        },
                    },
                    Option::None => Type::Nothing,
                };
                match Self::check_expectation(&bt, &expected) {
                    Result::Ok(_) => Type::Nothing,
                    Result::Err(e) => {
                        return Result::Err(TypeError::Somewhere(e));
                    },
                }
            },
            AstNode::StructDeclaration { .. } => Type::Nothing,
            AstNode::EnumDeclaration { .. } => Type::Nothing,
            AstNode::Import { .. } => Type::Nothing,
            AstNode::PropertyAssignment { target, value } => {
                match self.visit_expr(ast, *target) {
                    Result::Ok(_) => {},
                    Result::Err(e) => {
                        return Result::Err(e);
                    },
                }
                match self.visit_expr(ast, *value) {
                    Result::Ok(_) => Type::Nothing,
                    Result::Err(e) => {
                        return Result::Err(e);
                    },
                }
            },
            AstNode::ImplBlock { implementations, .. } => {
                let ghost m1 = self.type_map@;
                let n = implementations.len();
                let mut k: usize = 0;
                while k < n
                    invariant
                        ast.wf(),
                        id < ast.nodes@.len(),
                        node_children_bounded(*ast, id),
                        n == implementations@.len(),
                        k <= n,
                        forall|j: int|
                            0 <= j < implementations@.len() ==> (
                            #[trigger] implementations@[j]) < id && ast.nodes@[implementations@[j] as int].is_stmt(),
                        self.annotations == old(self).annotations,
                        self.annotations.wf(),
                        self.type_map.wf(),
                        ({
                            let full = spec_check_stmts(
                                *ast,
                                self.annotations@,
                                m1,
                                id,
                                implementations@,
                                0,
                            );
                            let rest = spec_check_stmts(
                                *ast,
                                self.annotations@,
                                self.type_map@,
                                id,
                                implementations@,
                                k as int,
                            );
                            (k < n || n == 0) ==> full == rest
                        }),
                        ({
                            let full = spec_check_stmts(
                                *ast,
                                self.annotations@,
                                m1,
                                id,
                                implementations@,
                                0,
                            );
                            (k == n && n > 0) ==> (full.res is Ok && full.map == self.type_map@)
                        }),
                    decreases n - k,
                {
                    match self.visit_stmt(ast, implementations[k]) {
                        Result::Ok(_) => {},
                        Result::Err(e) => {
                            return Result::Err(e);
                        },
                    }
                    k = k + 1;
                }
                Type::Nothing
            },
            _ => unreached(),
        };
        let tc = clone_type(&t);
        self.type_map.add_stmt(id, tc);
        Result::Ok(t)
    }

    /// Runs the whole pass over a resolved program: pre-declares the
    /// top-level block's names, checks every statement, and returns
    /// the finished type map or the first error.
    #[verifier::loop_isolation(false)]
    pub fn typecheck(program: &Ast, annotations: &'a Annotations) -> (r: Result<
        Typemap,
        TypeError,
    >)
        requires
            program.wf(),
            annotations.wf(),
        ensures
            (match r {
                Result::Ok(tm) => tm.wf() && (spec_typecheck(*program, annotations@)
                    matches Result::Ok(mv) && tm@ == mv),
                Result::Err(e) => spec_typecheck(*program, annotations@) matches Result::Err(ev)
                    && e@ == ev,
            }),
    {
        let mut checker = Checker::new(annotations);
        proof {
            assert(node_wf(program.nodes@, program.root as int));
        }
        match &program.nodes[program.root] {
            AstNode::Block { statements, .. } => {
                match checker.perform_block_predef(program, statements) {
                    Result::Ok(_) => {},
                    Result::Err(e) => {
                        return Result::Err(e);
                    },
                }
                let ghost m1 = checker.type_map@;
                let n = statements.len();
                let mut k: usize = 0;
                while k < n - 1
                    invariant
                        program.wf(),
                        program.root < program.nodes@.len(),
                        node_children_bounded(*program, program.root),
                        1 <= n,
                        n == statements@.len(),
                        k <= n - 1,
                        forall|j: int|
                            0 <= j < statements@.len() ==> (#[trigger] statements@[j])
                                < program.root && program.nodes@[statements@[j] as int].is_stmt(),
                        checker.annotations == annotations,
                        checker.annotations.wf(),
                        checker.type_map.wf(),
                        ({
                            let po = spec_predef(*program, statements@, Map::empty(), 0);
                            po.res is Ok && m1 == po.map && spec_check_stmts(
                                *program,
                                annotations@,
                                po.map,
                                program.root,
                                statements@,
                                0,
                            ) == spec_check_stmts(
                                *program,
                                annotations@,
                                checker.type_map@,
                                program.root,
                                statements@,
                                k as int,
                            )
                        }),
                    decreases n - 1 - k,
                {
                    match checker.visit_stmt(program, statements[k]) {
                        Result::Ok(_) => {},
                        Result::Err(e) => {
                            return Result::Err(e);
                        },
                    }
                    k = k + 1;
                }
                match checker.visit_stmt(program, statements[n - 1]) {
                    Result::Ok(_) => {},
                    Result::Err(e) => {
                        return Result::Err(e);
                    },
                }
                Result::Ok(checker.type_map)
            },
            _ => unreached(),
        }
    }
}


} // verus!
