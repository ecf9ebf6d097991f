//! The structural type algebra: primitive types, unions, callable
//! signatures and struct descriptors, with structural equality, the
//! compatibility (subtype) relation of the gradual type system, union
//! construction, and callable arity.

use vstd::prelude::*;

verus! {

/// Accepted argument counts of a callable: a fixed number of required
/// parameters, optionally followed by an unbounded vararg tail.
#[derive(Clone, Copy, Debug, PartialEq, Eq, Structural)]
pub struct Arity {
    pub required: usize,
    pub has_vararg: bool,
}

impl Arity {
    /// Whether a call with `n` arguments satisfies this arity.
    pub open spec fn spec_accepts(self, n: usize) -> bool {
        if self.has_vararg {
            n >= self.required
        } else {
            n == self.required
        }
    }

    pub fn accepts(&self, n: usize) -> (r: bool)
        ensures
            r == self.spec_accepts(n),
    {
        if self.has_vararg {
            n >= self.required
        } else {
            n == self.required
        }
    }
}

/// A function signature: ordered argument types, an optional vararg
/// type applied to every extra argument, and the return type.
#[derive(Debug)]
pub struct CallableType {
    pub arguments: Vec<Type>,
    pub vararg: Option<Box<Type>>,
    pub ret: Box<Type>,
}

/// A type of the checked language. Types are pure values compared
/// structurally; `Unspecified` is the gradual-typing escape hatch that
/// is compatible with everything.
#[derive(Debug)]
pub enum Type {
    Unspecified,
    Nothing,
    Bool,
    Int,
    Float,
    Str,
    Union(Vec<Type>),
    Callable(CallableType),
    StructDescriptor(String),
}

/// Mathematical image of a `Type`.
pub enum TypeView {
    Unspecified,
    Nothing,
    Bool,
    Int,
    Float,
    Str,
    Union(Seq<TypeView>),
    Callable { arguments: Seq<TypeView>, vararg: Option<Box<TypeView>>, ret: Box<TypeView> },
    StructDescriptor(Seq<char>),
}

pub open spec fn type_view(t: Type) -> TypeView
    decreases t,
{
    match t {
        Type::Unspecified => TypeView::Unspecified,
        Type::Nothing => TypeView::Nothing,
        Type::Bool => TypeView::Bool,
        Type::Int => TypeView::Int,
        Type::Float => TypeView::Float,
        Type::Str => TypeView::Str,
        Type::Union(ts) => TypeView::Union(type_seq_view(ts@)),
        Type::Callable(c) => TypeView::Callable {
            arguments: type_seq_view(c.arguments@),
            vararg: match c.vararg {
                Option::Some(b) => Option::Some(Box::new(type_view(*b))),
                Option::None => Option::None,
            },
            ret: Box::new(type_view(*c.ret)),
        },
        Type::StructDescriptor(n) => TypeView::StructDescriptor(n@),
    }
}

pub open spec fn type_seq_view(s: Seq<Type>) -> Seq<TypeView>
    decreases s,
{
    if s.len() == 0 {
        Seq::empty()
    } else {
        type_seq_view(s.drop_last()).push(type_view(s.last()))
    }
}

impl View for Type {
    type V = TypeView;

    open spec fn view(&self) -> TypeView {
        type_view(*self)
    }
}

/// `type_seq_view` maps the view over the sequence element by element.
pub proof fn lemma_type_seq_view(s: Seq<Type>)
    ensures
        type_seq_view(s).len() == s.len(),
        forall|i: int| 0 <= i < s.len() ==> type_seq_view(s)[i] == type_view(s[i]),
    decreases s.len(),
{
    if s.len() > 0 {
        lemma_type_seq_view(s.drop_last());
        assert forall|i: int| 0 <= i < s.len() implies type_seq_view(s)[i] == type_view(
            s[i],
        ) by {
            if i < s.len() - 1 {
                assert(s.drop_last()[i] == s[i]);
            }
        }
    }
}

/// Viewing a pushed sequence pushes the view.
pub proof fn lemma_type_seq_view_push(s: Seq<Type>, t: Type)
    ensures
        type_seq_view(s.push(t)) == type_seq_view(s).push(type_view(t)),
{
    assert(s.push(t).drop_last() =~= s);
    assert(s.push(t).last() == t);
}

/// One step of `add_missing`, spelled out.
proof fn lemma_add_missing_one(acc: Seq<TypeView>, m: TypeView)
    ensures
        add_missing(acc, seq![m]) == (if acc.contains(m) {
            acc
        } else {
            acc.push(m)
        }),
{
    reveal_with_fuel(add_missing, 2);
    assert(seq![m].drop_first() =~= Seq::<TypeView>::empty());
    assert(seq![m][0] == m);
}

impl Default for Type {
    /// The default type is the gradual-typing top, `Unspecified`.
    fn default() -> (r: Type)
        ensures
            r@ == TypeView::Unspecified,
    {
        Type::Unspecified
    }
}

/// A structural deep copy. (A derived `Clone` would tell the verifier
/// nothing about the copy, so the copy is spelled out.)
pub fn clone_type(t: &Type) -> (r: Type)
    ensures
        r@ == t@,
    decreases *t,
{
    match t {
        Type::Unspecified => Type::Unspecified,
        Type::Nothing => Type::Nothing,
        Type::Bool => Type::Bool,
        Type::Int => Type::Int,
        Type::Float => Type::Float,
        Type::Str => Type::Str,
        Type::Union(ts) => Type::Union(clone_type_vec(ts)),
        Type::Callable(c) => Type::Callable(
            CallableType {
                arguments: clone_type_vec(&c.arguments),
                vararg: match &c.vararg {
                    Option::Some(b) => Option::Some(Box::new(clone_type(b))),
                    Option::None => Option::None,
                },
                ret: Box::new(clone_type(&c.ret)),
            },
        ),
        Type::StructDescriptor(n) => Type::StructDescriptor(n.clone()),
    }
}

pub fn clone_type_vec(v: &Vec<Type>) -> (r: Vec<Type>)
    ensures
        type_seq_view(r@) == type_seq_view(v@),
        r@.len() == v@.len(),
    decreases *v,
{
    let mut r: Vec<Type> = Vec::new();
    let mut i: usize = 0;
    proof {
        lemma_type_seq_view(v@);
    }
    while i < v.len()
        invariant
            i <= v@.len(),
            r@.len() == i,
            forall|j: int| 0 <= j < i ==> type_view(r@[j]) == type_view(v@[j]),
            forall|j: int| 0 <= j < v@.len() ==> type_seq_view(v@)[j] == type_view(v@[j]),
            type_seq_view(v@).len() == v@.len(),
        decreases v@.len() - i,
    {
        let c = clone_type(&v[i]);
        r.push(c);
        i = i + 1;
    }
    proof {
        lemma_type_seq_view(r@);
        assert(type_seq_view(r@) =~= type_seq_view(v@));
    }
    r
}

/// Structural equality of types, decided executably and reflected into
/// the mathematical views.
pub fn type_eq(a: &Type, b: &Type) -> (r: bool)
    ensures
        r == (a@ == b@),
    decreases *a,
{
    match a {
        Type::Unspecified => match b { Type::Unspecified => true, _ => false },
        Type::Nothing => match b { Type::Nothing => true, _ => false },
        Type::Bool => match b { Type::Bool => true, _ => false },
        Type::Int => match b { Type::Int => true, _ => false },
        Type::Float => match b { Type::Float => true, _ => false },
        Type::Str => match b { Type::Str => true, _ => false },
        Type::Union(x) => match b {
            Type::Union(y) => type_vec_eq(x, y),
            _ => false,
        },
        Type::Callable(c) => match b {
            Type::Callable(d) => {
                let args_eq = type_vec_eq(&c.arguments, &d.arguments);
                let va_eq = match (&c.vararg, &d.vararg) {
                    (Option::Some(cv), Option::Some(dv)) => type_eq(cv, dv),
                    (Option::None, Option::None) => true,
                    _ => false,
                };
                args_eq && va_eq && type_eq(&c.ret, &d.ret)
            },
            _ => false,
        },
        Type::StructDescriptor(n) => match b {
            Type::StructDescriptor(m) => *n == *m,
            _ => false,
        },
    }
}

/// Elementwise structural equality of two type lists.
pub fn type_vec_eq(x: &Vec<Type>, y: &Vec<Type>) -> (r: bool)
    ensures
        r == (type_seq_view(x@) == type_seq_view(y@)),
    decreases *x,
{
    proof {
        lemma_type_seq_view(x@);
        lemma_type_seq_view(y@);
    }
    if x.len() != y.len() {
        proof {
            assert(type_seq_view(x@).len() != type_seq_view(y@).len());
        }
        return false;
    }
    let mut i: usize = 0;
    while i < x.len()
        invariant
            i <= x@.len(),
            x@.len() == y@.len(),
            forall|j: int| 0 <= j < i ==> type_view(x@[j]) == type_view(y@[j]),
            forall|j: int| 0 <= j < x@.len() ==> type_seq_view(x@)[j] == type_view(x@[j]),
            forall|j: int| 0 <= j < y@.len() ==> type_seq_view(y@)[j] == type_view(y@[j]),
            type_seq_view(x@).len() == x@.len(),
            type_seq_view(y@).len() == y@.len(),
        decreases x@.len() - i,
    {
        if !type_eq(&x[i], &y[i]) {
            proof {
                assert(type_seq_view(x@)[i as int] != type_seq_view(y@)[i as int]);
            }
            return false;
        }
        i = i + 1;
    }
    proof {
        assert(type_seq_view(x@) =~= type_seq_view(y@));
    }
    true
}

/// Whether this type is the gradual-typing escape hatch.
impl Type {
    pub fn is_unspecified(&self) -> (r: bool)
        ensures
            r == (self@ is Unspecified),
    {
        match self {
            Type::Unspecified => true,
            _ => false,
        }
    }

    pub fn is_int(&self) -> (r: bool)
        ensures
            r == (self@ is Int),
    {
        match self {
            Type::Int => true,
            _ => false,
        }
    }

    pub fn is_bool(&self) -> (r: bool)
        ensures
            r == (self@ is Bool),
    {
        match self {
            Type::Bool => true,
            _ => false,
        }
    }

    pub fn is_str(&self) -> (r: bool)
        ensures
            r == (self@ is Str),
    {
        match self {
            Type::Str => true,
            _ => false,
        }
    }

    /// The arity a value of this type exposes to a call: callables
    /// expose their signature's arity, every other type exposes none.
    pub fn get_arity(&self) -> (r: Option<Arity>)
        ensures
            r == spec_arity_of(self@),
    {
        match self {
            Type::Callable(c) => {
                proof {
                    lemma_type_seq_view(c.arguments@);
                }
                Option::Some(
                    Arity { required: c.arguments.len(), has_vararg: c.vararg.is_some() },
                )
            },
            _ => Option::None,
        }
    }
}

pub open spec fn spec_arity_of(t: TypeView) -> Option<Arity> {
    match t {
        TypeView::Callable { arguments, vararg, .. } => Option::Some(
            Arity { required: arguments.len() as usize, has_vararg: vararg is Some },
        ),
        _ => Option::None,
    }
}

/// The compatibility relation `provided` fits `expected` of the gradual
/// type system: reflexive on identical types, `Unspecified` fits and is
/// fit by everything, and a union fits only if every one of its members
/// fits the expectation.
pub open spec fn compatible(p: TypeView, e: TypeView) -> bool
    decreases p,
{
    if p == e {
        true
    } else if p is Unspecified {
        true
    } else if e is Unspecified {
        true
    } else {
        match p {
            TypeView::Union(ts) => all_members_compatible(ts, e),
            _ => false,
        }
    }
}

/// Every member of `ts` fits the expectation `e`.
pub open spec fn all_members_compatible(ts: Seq<TypeView>, e: TypeView) -> bool
    decreases ts,
{
    forall|i: int| 0 <= i < ts.len() ==> compatible(#[trigger] ts[i], e)
}

/// Decides `compatible` on concrete types.
pub fn is_compatible(p: &Type, e: &Type) -> (r: bool)
    ensures
        r == compatible(p@, e@),
    decreases *p,
{
    if type_eq(p, e) {
        return true;
    }
    if p.is_unspecified() || e.is_unspecified() {
        return true;
    }
    match p {
        Type::Union(ts) => union_all_compatible(ts, e),
        _ => false,
    }
}

/// Decides `all_members_compatible` on a concrete list of types.
fn union_all_compatible(ts: &Vec<Type>, e: &Type) -> (r: bool)
    ensures
        r == all_members_compatible(type_seq_view(ts@), e@),
    decreases *ts,
{
    proof {
        lemma_type_seq_view(ts@);
    }
    let ghost tsv = type_seq_view(ts@);
    let mut i: usize = 0;
    while i < ts.len()
        invariant
            i <= ts@.len(),
            tsv == type_seq_view(ts@),
            forall|j: int| 0 <= j < i ==> compatible(#[trigger] tsv[j], e@),
            forall|j: int| 0 <= j < ts@.len() ==> tsv[j] == type_view(ts@[j]),
            tsv.len() == ts@.len(),
        decreases ts@.len() - i,
    {
        if !is_compatible(&ts[i], e) {
            proof {
                assert(!compatible(tsv[i as int], e@));
                assert(!all_members_compatible(tsv, e@));
            }
            return false;
        }
        i = i + 1;
    }
    true
}

/// The members a type contributes to a union: a union contributes its
/// own members, any other type contributes itself.
pub open spec fn union_members(t: TypeView) -> Seq<TypeView> {
    match t {
        TypeView::Union(ts) => ts,
        _ => seq![t],
    }
}

/// Appends to `acc`, in order, those of `items` not already present.
pub open spec fn add_missing(acc: Seq<TypeView>, items: Seq<TypeView>) -> Seq<TypeView>
    decreases items.len(),
{
    if items.len() == 0 {
        acc
    } else {
        let acc2 = if acc.contains(items[0]) {
            acc
        } else {
            acc.push(items[0])
        };
        add_missing(acc2, items.drop_first())
    }
}

/// The union of two types: the distinct members of both, in order of
/// first appearance; a single surviving member stands alone, without a
/// union wrapper.
pub open spec fn union_of(a: TypeView, b: TypeView) -> TypeView {
    let ms = add_missing(add_missing(Seq::empty(), union_members(a)), union_members(b));
    if ms.len() == 1 {
        ms[0]
    } else {
        TypeView::Union(ms)
    }
}

/// Does `v` hold a member structurally equal to `t`?
fn vec_contains_type(v: &Vec<Type>, t: &Type) -> (r: bool)
    ensures
        r == type_seq_view(v@).contains(t@),
{
    proof {
        lemma_type_seq_view(v@);
    }
    let mut i: usize = 0;
    while i < v.len()
        invariant
            i <= v@.len(),
            forall|j: int| 0 <= j < i ==> type_seq_view(v@)[j] != t@,
            forall|j: int| 0 <= j < v@.len() ==> type_seq_view(v@)[j] == type_view(v@[j]),
            type_seq_view(v@).len() == v@.len(),
        decreases v@.len() - i,
    {
        if type_eq(&v[i], t) {
            proof {
                assert(type_seq_view(v@)[i as int] == t@);
            }
            return true;
        }
        i = i + 1;
    }
    proof {
        if type_seq_view(v@).contains(t@) {
            let k = choose|k: int| 0 <= k < type_seq_view(v@).len() && type_seq_view(v@)[k] == t@;
            assert(type_seq_view(v@)[k] != t@);
        }
    }
    false
}

/// Pushes `t` onto `acc` unless an equal member is already there.
fn push_missing_one(acc: &mut Vec<Type>, t: Type)
    ensures
        type_seq_view(final(acc)@) == add_missing(
            type_seq_view(old(acc)@),
            seq![type_view(t)],
        ),
{
    proof {
        lemma_add_missing_one(type_seq_view(acc@), type_view(t));
    }
    if !vec_contains_type(acc, &t) {
        let ghost tv = type_view(t);
        let ghost before = acc@;
        acc.push(t);
        proof {
            lemma_type_seq_view_push(before, acc@.last());
            assert(before.push(acc@.last()) =~= acc@);
        }
    }
}

/// Pushes every member `t` contributes to a union, skipping duplicates.
fn push_missing(acc: &mut Vec<Type>, t: Type)
    ensures
        type_seq_view(final(acc)@) == add_missing(
            type_seq_view(old(acc)@),
            union_members(type_view(t)),
        ),
{
    match t {
        Type::Union(ts) => {
            proof {
                lemma_type_seq_view(ts@);
            }
            let ghost members = type_seq_view(ts@);
            let ghost acc0 = type_seq_view(acc@);
            proof {
                assert(members.skip(0) =~= members);
            }
            let mut i: usize = 0;
            while i < ts.len()
                invariant
                    i <= ts@.len(),
                    members == type_seq_view(ts@),
                    members.len() == ts@.len(),
                    forall|j: int| 0 <= j < ts@.len() ==> members[j] == type_view(ts@[j]),
                    add_missing(acc0, members) == add_missing(
                        type_seq_view(acc@),
                        members.skip(i as int),
                    ),
                decreases ts@.len() - i,
            {
                let c = clone_type(&ts[i]);
                let ghost acc_before = type_seq_view(acc@);
                push_missing_one(acc, c);
                proof {
                    lemma_add_missing_one(acc_before, type_view(c));
                    assert(type_view(c) == members[i as int]);
                    assert(members.skip(i as int)[0] == members[i as int]);
                    assert(members.skip(i as int).drop_first() =~= members.skip(i as int + 1));
                }
                i = i + 1;
            }
            proof {
                assert(members.skip(ts@.len() as int) =~= Seq::<TypeView>::empty());
            }
        },
        _ => {
            proof {
                assert(union_members(type_view(t)) =~= seq![type_view(t)]);
            }
            push_missing_one(acc, t);
        },
    }
}

/// Builds the union of two types; see `union_of`.
pub fn build_union(left: Type, right: Type) -> (r: Type)
    ensures
        r@ == union_of(left@, right@),
{
    let ghost lv = left@;
    let ghost rv = right@;
    let mut items: Vec<Type> = Vec::new();
    proof {
        assert(type_seq_view(items@) =~= Seq::<TypeView>::empty());
    }
    push_missing(&mut items, left);
    push_missing(&mut items, right);
    proof {
        lemma_type_seq_view(items@);
    }
    if items.len() == 1 {
        clone_type(&items[0])
    } else {
        Type::Union(items)
    }
}

/// Structural well-formedness of a type as the checker builds them:
/// union members are at least two, pairwise distinct, and never
/// themselves unions; components of callables are well formed.
pub open spec fn type_wf(t: TypeView) -> bool
    decreases t,
{
    match t {
        TypeView::Union(ts) => {
            &&& ts.len() >= 2
            &&& forall|i: int| 0 <= i < ts.len() ==> !(#[trigger] ts[i] is Union) && type_wf(ts[i])
            &&& forall|i: int, j: int| 0 <= i < j < ts.len() ==> ts[i] != ts[j]
        },
        TypeView::Callable { arguments, vararg, ret } => {
            &&& forall|i: int| 0 <= i < arguments.len() ==> type_wf(#[trigger] arguments[i])
            &&& match vararg {
                Option::Some(v) => type_wf(*v),
                Option::None => true,
            }
            &&& type_wf(*ret)
        },
        _ => true,
    }
}

/// `add_missing` adds nothing when everything is already present.
proof fn lemma_add_missing_all_present(acc: Seq<TypeView>, items: Seq<TypeView>)
    requires
        forall|i: int| 0 <= i < items.len() ==> acc.contains(#[trigger] items[i]),
    ensures
        add_missing(acc, items) == acc,
    decreases items.len(),
{
    if items.len() > 0 {
        assert(acc.contains(items[0]));
        assert forall|i: int| 0 <= i < items.drop_first().len() implies acc.contains(
            #[trigger] items.drop_first()[i],
        ) by {
            assert(items.drop_first()[i] == items[i + 1]);
        }
        lemma_add_missing_all_present(acc, items.drop_first());
    }
}

/// `add_missing` copies `items` verbatim when they are pairwise
/// distinct and disjoint from `acc`.
proof fn lemma_add_missing_fresh(acc: Seq<TypeView>, items: Seq<TypeView>)
    requires
        forall|i: int, j: int| 0 <= i < j < items.len() ==> items[i] != items[j],
        forall|i: int| 0 <= i < items.len() ==> !acc.contains(#[trigger] items[i]),
    ensures
        add_missing(acc, items) == acc + items,
    decreases items.len(),
{
    if items.len() == 0 {
        assert(acc + items =~= acc);
    } else {
        assert(!acc.contains(items[0]));
        let acc2 = acc.push(items[0]);
        assert forall|i: int| 0 <= i < items.drop_first().len() implies !acc2.contains(
            #[trigger] items.drop_first()[i],
        ) by {
            assert(items.drop_first()[i] == items[i + 1]);
            if acc2.contains(items[i + 1]) {
                let k = choose|k: int| 0 <= k < acc2.len() && acc2[k] == items[i + 1];
                if k < acc.len() {
                    assert(acc.contains(items[i + 1]));
                } else {
                    assert(items[0] == items[i + 1]);
                }
            }
        }
        assert forall|i: int, j: int|
            0 <= i < j < items.drop_first().len() implies items.drop_first()[i]
            != items.drop_first()[j] by {
            assert(items.drop_first()[i] == items[i + 1]);
            assert(items.drop_first()[j] == items[j + 1]);
        }
        lemma_add_missing_fresh(acc2, items.drop_first());
        assert(acc2 + items.drop_first() =~= acc + items);
    }
}

/// Union idempotence: the union of a well-formed type with itself is
/// that type, with no union wrapper around it. In particular the
/// conditional-expression rule, which unions its branch types, yields
/// the branch type itself whenever both branches agree.
pub proof fn lemma_union_idempotent(t: TypeView)
    requires
        type_wf(t),
    ensures
        union_of(t, t) == t,
{
    match t {
        TypeView::Union(ts) => {
            lemma_add_missing_fresh(Seq::empty(), ts);
            assert(Seq::<TypeView>::empty() + ts =~= ts);
            assert forall|i: int| 0 <= i < ts.len() implies ts.contains(#[trigger] ts[i]) by {}
            lemma_add_missing_all_present(ts, ts);
        },
        _ => {
            let items = seq![t];
            assert forall|i: int, j: int| 0 <= i < j < items.len() implies items[i]
                != items[j] by {}
            assert forall|i: int| 0 <= i < items.len() implies !Seq::<TypeView>::empty().contains(
                #[trigger] items[i],
            ) by {}
            lemma_add_missing_fresh(Seq::empty(), items);
            assert(Seq::<TypeView>::empty() + items =~= items);
            assert(union_members(t) == items);
            lemma_add_missing_all_present(items, items);
            assert(items.contains(t));
        },
    }
}


} // verus!
