//! The annotation store: the resolver's output, read by the type
//! checker and by the backend.
//!
//! Per scope it keeps an insertion-ordered map from variable name to
//! storage classification, per function an insertion-ordered set of
//! captured names, and per name use the declaration it resolves to.
//! The ordered collections are indexmap's; their contents are named by
//! uninterpreted sequence views and every call goes through a small
//! trusted wrapper whose contract states what indexmap documents.

use vstd::prelude::*;

use crate::assoc::{kv_distinct, kv_map, lemma_kv_distinct_push, lemma_kv_map_absent,
    lemma_kv_map_at, lemma_kv_map_push};
use crate::ast::DefKey;
use indexmap::IndexMap;
use indexmap::IndexSet;

verus! {

/// Storage classification of a declared variable: `Normal` lives in a
/// stack slot; `Boxed` must live in a heap cell because a nested
/// function captures it. `Closed` is declared for a planned further
/// distinction and is never produced.
#[derive(Clone, Copy, Debug, PartialEq, Eq, Structural, Hash)]
pub enum VariableType {
    Normal,
    Boxed,
    Closed,
}

// ---------------------------------------------------------------
// Trusted view of indexmap's two collections.
// ---------------------------------------------------------------

#[verifier::external_type_specification]
#[verifier::external_body]
#[verifier::reject_recursive_types(K)]
#[verifier::reject_recursive_types(V)]
#[verifier::reject_recursive_types(S)]
pub struct ExIndexMap<K, V, S>(IndexMap<K, V, S>);

#[verifier::external_type_specification]
#[verifier::external_body]
#[verifier::reject_recursive_types(T)]
#[verifier::reject_recursive_types(S)]
pub struct ExIndexSet<T, S>(IndexSet<T, S>);

/// The key/value pairs a scope map holds, in insertion order.
pub uninterp spec fn scope_map_entries(m: &IndexMap<String, VariableType>) -> Seq<
    (Seq<char>, VariableType),
>;

/// The names a capture set holds, in insertion order.
pub uninterp spec fn name_set_elems(s: &IndexSet<String>) -> Seq<Seq<char>>;

/// Is some pair of `s` keyed by `k`?
pub open spec fn has_key<V>(s: Seq<(Seq<char>, V)>, k: Seq<char>) -> bool {
    exists|i: int| 0 <= i < s.len() && (#[trigger] s[i]).0 == k
}

/// The index of the pair keyed by `k` (unique when keys are distinct).
pub open spec fn key_at<V>(s: Seq<(Seq<char>, V)>, k: Seq<char>) -> int {
    choose|i: int| 0 <= i < s.len() && (#[trigger] s[i]).0 == k
}

/// The value bound to `k`, if any.
pub open spec fn lookup_entries<V>(s: Seq<(Seq<char>, V)>, k: Seq<char>) -> Option<V> {
    if has_key(s, k) {
        Option::Some(s[key_at(s, k)].1)
    } else {
        Option::None
    }
}

/// Insertion-ordered insert: an existing key keeps its place and gets
/// the new value, a fresh key is appended last.
pub open spec fn upsert<V>(s: Seq<(Seq<char>, V)>, k: Seq<char>, v: V) -> Seq<(Seq<char>, V)> {
    if has_key(s, k) {
        s.update(key_at(s, k), (k, v))
    } else {
        s.push((k, v))
    }
}

/// Insertion-ordered set insert: a present element leaves the set
/// unchanged, a fresh one is appended last.
pub open spec fn set_add(s: Seq<Seq<char>>, k: Seq<char>) -> Seq<Seq<char>> {
    if s.contains(k) {
        s
    } else {
        s.push(k)
    }
}

/// Relies on indexmap::IndexMap::new: creates an empty map.
#[verifier::external_body]
pub(crate) fn imap_new() -> (m: IndexMap<String, VariableType>)
    ensures
        scope_map_entries(&m) == Seq::<(Seq<char>, VariableType)>::empty(),
{
    IndexMap::new()
}

/// Relies on indexmap::IndexMap::insert: an equivalent key keeps its
/// place in the order and its value is updated; a new key is inserted
/// last in order.
#[verifier::external_body]
pub(crate) fn imap_insert(m: &mut IndexMap<String, VariableType>, k: String, v: VariableType)
    ensures
        scope_map_entries(final(m)) == upsert(scope_map_entries(old(m)), k@, v),
{
    m.insert(k, v);
}

/// Relies on indexmap::IndexMap::get: the stored value for the key if
/// present, else None.
#[verifier::external_body]
pub(crate) fn imap_get(m: &IndexMap<String, VariableType>, k: &String) -> (r: Option<VariableType>)
    ensures
        r == lookup_entries(scope_map_entries(m), k@),
{
    m.get(k).copied()
}

/// Relies on indexmap::IndexMap::contains_key.
#[verifier::external_body]
pub(crate) fn imap_contains(m: &IndexMap<String, VariableType>, k: &String) -> (r: bool)
    ensures
        r == has_key(scope_map_entries(m), k@),
{
    m.contains_key(k)
}

/// Relies on indexmap::IndexMap::len: the number of key/value pairs.
#[verifier::external_body]
pub(crate) fn imap_len(m: &IndexMap<String, VariableType>) -> (r: usize)
    ensures
        r == scope_map_entries(m).len(),
{
    m.len()
}

/// Relies on indexmap::IndexMap::get_index: the pair at a position of
/// the order, if the position is within bounds.
#[verifier::external_body]
pub(crate) fn imap_get_index(m: &IndexMap<String, VariableType>, i: usize) -> (r: Option<
    (String, VariableType),
>)
    ensures
        (match r {
            Option::Some(p) => i < scope_map_entries(m).len() && p.0@ == scope_map_entries(
                m,
            )[i as int].0 && p.1 == scope_map_entries(m)[i as int].1,
            Option::None => i >= scope_map_entries(m).len(),
        }),
{
    match m.get_index(i) {
        Option::Some((k, v)) => Option::Some((k.clone(), *v)),
        Option::None => Option::None,
    }
}

/// Relies on indexmap::IndexSet::new: creates an empty set.
#[verifier::external_body]
pub(crate) fn iset_new() -> (s: IndexSet<String>)
    ensures
        name_set_elems(&s) == Seq::<Seq<char>>::empty(),
{
    IndexSet::new()
}

/// Relies on indexmap::IndexSet::insert: an equivalent element leaves
/// the set unchanged (returning false); a new one is inserted last in
/// order (returning true).
#[verifier::external_body]
pub(crate) fn iset_insert(s: &mut IndexSet<String>, k: String) -> (r: bool)
    ensures
        name_set_elems(final(s)) == set_add(name_set_elems(old(s)), k@),
        r == !name_set_elems(old(s)).contains(k@),
{
    s.insert(k)
}

/// Relies on indexmap::IndexSet::contains.
#[verifier::external_body]
pub(crate) fn iset_contains(s: &IndexSet<String>, k: &String) -> (r: bool)
    ensures
        r == name_set_elems(s).contains(k@),
{
    s.contains(k)
}

/// Relies on indexmap::IndexSet::len: the number of elements.
#[verifier::external_body]
pub(crate) fn iset_len(s: &IndexSet<String>) -> (r: usize)
    ensures
        r == name_set_elems(s).len(),
{
    s.len()
}

/// Relies on indexmap::IndexSet::get_index: the element at a position
/// of the order, if the position is within bounds.
#[verifier::external_body]
pub(crate) fn iset_get_index(s: &IndexSet<String>, i: usize) -> (r: Option<String>)
    ensures
        (match r {
            Option::Some(e) => i < name_set_elems(s).len() && e@ == name_set_elems(s)[i as int],
            Option::None => i >= name_set_elems(s).len(),
        }),
{
    match s.get_index(i) {
        Option::Some(e) => Option::Some(e.clone()),
        Option::None => Option::None,
    }
}

// ---------------------------------------------------------------
// Facts about the ordered-insert abstractions (proved, not trusted).
// ---------------------------------------------------------------

/// `upsert` keeps keys pairwise distinct.
pub proof fn lemma_upsert_distinct<V>(s: Seq<(Seq<char>, V)>, k: Seq<char>, v: V)
    requires
        kv_distinct(s),
    ensures
        kv_distinct(upsert(s, k, v)),
{
    if has_key(s, k) {
        let i = key_at(s, k);
        let s2 = s.update(i, (k, v));
        assert forall|a: int, b: int| 0 <= a < b < s2.len() implies (#[trigger] s2[a]).0
            != (#[trigger] s2[b]).0 by {
            assert(s[a].0 != s[b].0);
            if a != i {
                assert(s2[a] == s[a]);
            }
            if b != i {
                assert(s2[b] == s[b]);
            }
        }
    } else {
        assert forall|i: int| 0 <= i < s.len() implies (#[trigger] s[i]).0 != k by {}
        lemma_kv_distinct_push(s, k, v);
    }
}

/// How a lookup reads through an `upsert`.
pub proof fn lemma_lookup_upsert<V>(s: Seq<(Seq<char>, V)>, k: Seq<char>, v: V, q: Seq<char>)
    requires
        kv_distinct(s),
    ensures
        lookup_entries(upsert(s, k, v), q) == (if q == k {
            Option::Some(v)
        } else {
            lookup_entries(s, q)
        }),
{
    let s2 = upsert(s, k, v);
    if has_key(s, k) {
        let i = key_at(s, k);
        assert(0 <= i < s.len() && s[i].0 == k);
        assert(s2 == s.update(i, (k, v)));
        if q == k {
            assert(s2[i].0 == q);
            assert(has_key(s2, q));
            let j = key_at(s2, q);
            assert(0 <= j < s2.len() && s2[j].0 == q);
            if j != i {
                assert(s2[j] == s[j]);
                assert(s[j].0 != s[i].0);
            }
        } else {
            if has_key(s, q) {
                let j = key_at(s, q);
                assert(0 <= j < s.len() && s[j].0 == q);
                assert(j != i);
                assert(s2[j] == s[j]);
                assert(has_key(s2, q));
                let j2 = key_at(s2, q);
                assert(0 <= j2 < s2.len() && s2[j2].0 == q);
                if j2 != i {
                    assert(s2[j2] == s[j2]);
                    if j2 != j {
                        assert(s[j2].0 != s[j].0);
                    }
                } else {
                    assert(s2[j2].0 == k);
                }
            } else {
                if has_key(s2, q) {
                    let j2 = key_at(s2, q);
                    assert(0 <= j2 < s2.len() && s2[j2].0 == q);
                    if j2 == i {
                        assert(s2[j2].0 == k);
                    } else {
                        assert(s2[j2] == s[j2]);
                        assert(has_key(s, q));
                    }
                }
            }
        }
    } else {
        assert(s2 == s.push((k, v)));
        if q == k {
            assert(s2[s.len() as int].0 == q);
            assert(has_key(s2, q));
            let j = key_at(s2, q);
            assert(0 <= j < s2.len() && s2[j].0 == q);
            if j < s.len() {
                assert(s2[j] == s[j]);
                assert(has_key(s, k));
            }
        } else {
            if has_key(s, q) {
                let j = key_at(s, q);
                assert(s2[j] == s[j]);
                assert(has_key(s2, q));
                let j2 = key_at(s2, q);
                assert(0 <= j2 < s2.len() && s2[j2].0 == q);
                assert(j2 < s.len());
                assert(s2[j2] == s[j2]);
                if j2 != j {
                    assert(s[j2].0 != s[j].0);
                }
            } else {
                if has_key(s2, q) {
                    let j2 = key_at(s2, q);
                    assert(0 <= j2 < s2.len() && s2[j2].0 == q);
                    assert(j2 < s.len());
                    assert(s2[j2] == s[j2]);
                    assert(has_key(s, q));
                }
            }
        }
    }
}

/// Map-level well-formedness of a store image: every scope's entry
/// list has pairwise distinct names.
pub open spec fn view_wf(v: AnnView) -> bool {
    forall|sid: usize| #[trigger] v.blocks.contains_key(sid) ==> kv_distinct(v.blocks[sid])
}

/// A well-formed store has a well-formed image.
pub proof fn lemma_wf_view_wf(a: Annotations)
    requires
        a.wf(),
    ensures
        view_wf(a@),
{
    assert forall|sid: usize| #[trigger] a@.blocks.contains_key(sid) implies kv_distinct(
        a@.blocks[sid],
    ) by {
        crate::assoc::lemma_kv_map_contains_index(a.blocks_assoc(), sid);
        let i = choose|i: int|
            0 <= i < a.blocks_assoc().len() && (#[trigger] a.blocks_assoc()[i]).0 == sid;
        lemma_kv_map_at(a.blocks_assoc(), i);
    }
}

// ---------------------------------------------------------------
// The annotation store itself.
// ---------------------------------------------------------------

/// The resolver's persistent output. `blocks` maps each scope's node
/// id to the ordered map of variables declared directly in it with
/// their storage classification; `closures` maps each function's node
/// id to the ordered set of names it must capture; `definitions` maps
/// each resolved name use (a name expression or an assignment target,
/// by node id) to the declaration it refers to.
pub struct Annotations {
    pub blocks: Vec<(usize, IndexMap<String, VariableType>)>,
    pub closures: Vec<(usize, IndexSet<String>)>,
    pub definitions: Vec<(usize, DefKey)>,
}

/// Mathematical image of the store: three maps.
pub struct AnnView {
    pub blocks: Map<usize, Seq<(Seq<char>, VariableType)>>,
    pub closures: Map<usize, Seq<Seq<char>>>,
    pub defs: Map<usize, DefKey>,
}

impl Annotations {
    pub open spec fn blocks_assoc(self) -> Seq<(usize, Seq<(Seq<char>, VariableType)>)> {
        self.blocks@.map_values(
            |p: (usize, IndexMap<String, VariableType>)| (p.0, scope_map_entries(&p.1)),
        )
    }

    pub open spec fn closures_assoc(self) -> Seq<(usize, Seq<Seq<char>>)> {
        self.closures@.map_values(|p: (usize, IndexSet<String>)| (p.0, name_set_elems(&p.1)))
    }

    /// Scope ids, function ids and use sites each appear once, and
    /// each scope map has pairwise distinct names.
    pub open spec fn wf(self) -> bool {
        &&& kv_distinct(self.blocks_assoc())
        &&& forall|i: int|
            0 <= i < self.blocks_assoc().len() ==> kv_distinct(
                (#[trigger] self.blocks_assoc()[i]).1,
            )
        &&& kv_distinct(self.closures_assoc())
        &&& kv_distinct(self.definitions@)
    }

    pub fn new() -> (r: Annotations)
        ensures
            r.wf(),
            r@.blocks == Map::<usize, Seq<(Seq<char>, VariableType)>>::empty(),
            r@.closures == Map::<usize, Seq<Seq<char>>>::empty(),
            r@.defs == Map::<usize, DefKey>::empty(),
    {
        let r = Annotations { blocks: Vec::new(), closures: Vec::new(), definitions: Vec::new() };
        proof {
            assert(r.blocks_assoc() =~= Seq::<(usize, Seq<(Seq<char>, VariableType)>)>::empty());
            assert(r.closures_assoc() =~= Seq::<(usize, Seq<Seq<char>>)>::empty());
        }
        r
    }

    fn find_block(&self, id: usize) -> (r: Option<usize>)
        ensures
            (match r {
                Option::Some(i) => i < self.blocks@.len() && self.blocks@[i as int].0 == id,
                Option::None => forall|j: int|
                    0 <= j < self.blocks@.len() ==> (#[trigger] self.blocks@[j]).0 != id,
            }),
    {
        let mut i: usize = 0;
        while i < self.blocks.len()
            invariant
                i <= self.blocks@.len(),
                forall|j: int| 0 <= j < i ==> (#[trigger] self.blocks@[j]).0 != id,
            decreases self.blocks@.len() - i,
        {
            if self.blocks[i].0 == id {
                return Option::Some(i);
            }
            i = i + 1;
        }
        Option::None
    }

    fn find_closure(&self, id: usize) -> (r: Option<usize>)
        ensures
            (match r {
                Option::Some(i) => i < self.closures@.len() && self.closures@[i as int].0 == id,
                Option::None => forall|j: int|
                    0 <= j < self.closures@.len() ==> (#[trigger] self.closures@[j]).0 != id,
            }),
    {
        let mut i: usize = 0;
        while i < self.closures.len()
            invariant
                i <= self.closures@.len(),
                forall|j: int| 0 <= j < i ==> (#[trigger] self.closures@[j]).0 != id,
            decreases self.closures@.len() - i,
        {
            if self.closures[i].0 == id {
                return Option::Some(i);
            }
            i = i + 1;
        }
        Option::None
    }

    /// Creates the (empty) scope map for a scope id if none is there.
    pub fn ensure_block_scope(&mut self, id: usize)
        requires
            old(self).wf(),
        ensures
            final(self).wf(),
            final(self)@.blocks == (if old(self)@.blocks.contains_key(id) {
                old(self)@.blocks
            } else {
                old(self)@.blocks.insert(id, Seq::<(Seq<char>, VariableType)>::empty())
            }),
            final(self)@.closures == old(self)@.closures,
            final(self)@.defs == old(self)@.defs,
    {
        let found = self.find_block(id);
        match found {
            Option::Some(i) => {
                proof {
                    lemma_kv_map_at(self.blocks_assoc(), i as int);
                }
            },
            Option::None => {
                proof {
                    assert forall|j: int| 0 <= j < self.blocks_assoc().len() implies (
                    #[trigger] self.blocks_assoc()[j]).0 != id by {}
                    lemma_kv_map_absent(self.blocks_assoc(), id);
                }
                let ghost before = self.blocks_assoc();
                let m = imap_new();
                self.blocks.push((id, m));
                proof {
                    assert(self.blocks_assoc() =~= before.push(
                        (id, Seq::<(Seq<char>, VariableType)>::empty()),
                    ));
                    lemma_kv_map_push(before, id, Seq::<(Seq<char>, VariableType)>::empty());
                    lemma_kv_distinct_push(
                        before,
                        id,
                        Seq::<(Seq<char>, VariableType)>::empty(),
                    );
                    assert forall|i: int|
                        0 <= i < self.blocks_assoc().len() implies kv_distinct(
                        (#[trigger] self.blocks_assoc()[i]).1,
                    ) by {
                        if i < before.len() {
                            assert(self.blocks_assoc()[i] == before[i]);
                        }
                    }
                }
            },
        }
    }

    /// Sets (or re-sets) a variable's classification in a scope's map.
    pub fn set_block_var(&mut self, id: usize, name: String, v: VariableType)
        requires
            old(self).wf(),
            old(self)@.blocks.contains_key(id),
        ensures
            final(self).wf(),
            final(self)@.blocks == old(self)@.blocks.insert(
                id,
                upsert(old(self)@.blocks[id], name@, v),
            ),
            final(self)@.closures == old(self)@.closures,
            final(self)@.defs == old(self)@.defs,
    {
        let found = self.find_block(id);
        proof {
            if found is None {
                assert forall|j: int| 0 <= j < self.blocks_assoc().len() implies (
                #[trigger] self.blocks_assoc()[j]).0 != id by {}
                lemma_kv_map_absent(self.blocks_assoc(), id);
            }
        }
        let i = found.unwrap();
        let ghost before = self.blocks_assoc();
        let ghost old_entries = scope_map_entries(&self.blocks@[i as int].1);
        proof {
            lemma_kv_map_at(before, i as int);
        }
        let slot = &mut self.blocks[i].1;
        imap_insert(slot, name, v);
        proof {
            assert(self.blocks@ == old(self).blocks@.update(
                i as int,
                (id, self.blocks@[i as int].1),
            ));
            assert(self.blocks_assoc() =~= before.update(
                i as int,
                (id, upsert(old_entries, name@, v)),
            ));
            crate::assoc::lemma_kv_map_update(
                before,
                i as int,
                id,
                upsert(old_entries, name@, v),
            );
            crate::assoc::lemma_kv_distinct_update(
                before,
                i as int,
                id,
                upsert(old_entries, name@, v),
            );
            lemma_upsert_distinct(old_entries, name@, v);
            assert forall|j: int|
                0 <= j < self.blocks_assoc().len() implies kv_distinct(
                (#[trigger] self.blocks_assoc()[j]).1,
            ) by {
                if j != i {
                    assert(self.blocks_assoc()[j] == before[j]);
                }
            }
        }
    }

    /// Declares a variable in a scope's map with the default
    /// classification `Normal` -- unless the name is already recorded
    /// there, so that an earlier `Boxed` classification is never lost.
    pub fn declare_block_var(&mut self, id: usize, name: String)
        requires
            old(self).wf(),
            old(self)@.blocks.contains_key(id),
        ensures
            final(self).wf(),
            final(self)@.blocks == old(self)@.blocks.insert(
                id,
                (if has_key(old(self)@.blocks[id], name@) {
                    old(self)@.blocks[id]
                } else {
                    upsert(old(self)@.blocks[id], name@, VariableType::Normal)
                }),
            ),
            final(self)@.closures == old(self)@.closures,
            final(self)@.defs == old(self)@.defs,
    {
        let found = self.find_block(id);
        proof {
            if found is None {
                assert forall|j: int| 0 <= j < self.blocks_assoc().len() implies (
                #[trigger] self.blocks_assoc()[j]).0 != id by {}
                lemma_kv_map_absent(self.blocks_assoc(), id);
            }
        }
        let i = found.unwrap();
        proof {
            lemma_kv_map_at(self.blocks_assoc(), i as int);
        }
        if imap_contains(&self.blocks[i].1, &name) {
            proof {
                assert(self@.blocks =~= old(self)@.blocks.insert(id, old(self)@.blocks[id]));
            }
        } else {
            self.set_block_var(id, name, VariableType::Normal);
        }
    }

    /// A variable's classification in a scope's map, if recorded.
    pub fn get_block_var(&self, id: usize, name: &String) -> (r: Option<VariableType>)
        requires
            self.wf(),
        ensures
            r == (if self@.blocks.contains_key(id) {
                lookup_entries(self@.blocks[id], name@)
            } else {
                Option::<VariableType>::None
            }),
    {
        let found = self.find_block(id);
        match found {
            Option::Some(i) => {
                proof {
                    lemma_kv_map_at(self.blocks_assoc(), i as int);
                }
                imap_get(&self.blocks[i].1, name)
            },
            Option::None => {
                proof {
                    assert forall|j: int| 0 <= j < self.blocks_assoc().len() implies (
                    #[trigger] self.blocks_assoc()[j]).0 != id by {}
                    lemma_kv_map_absent(self.blocks_assoc(), id);
                }
                Option::None
            },
        }
    }

    /// How many variables a scope's map holds (0 for an absent scope).
    pub fn block_scope_len(&self, id: usize) -> (r: usize)
        requires
            self.wf(),
        ensures
            r == (if self@.blocks.contains_key(id) {
                self@.blocks[id].len()
            } else {
                0
            }),
    {
        let found = self.find_block(id);
        match found {
            Option::Some(i) => {
                proof {
                    lemma_kv_map_at(self.blocks_assoc(), i as int);
                }
                imap_len(&self.blocks[i].1)
            },
            Option::None => {
                proof {
                    assert forall|j: int| 0 <= j < self.blocks_assoc().len() implies (
                    #[trigger] self.blocks_assoc()[j]).0 != id by {}
                    lemma_kv_map_absent(self.blocks_assoc(), id);
                }
                0
            },
        }
    }

    /// The `i`th declared variable of a scope, in declaration order.
    pub fn block_scope_at(&self, id: usize, i: usize) -> (r: Option<(String, VariableType)>)
        requires
            self.wf(),
        ensures
            (match r {
                Option::Some(p) => self@.blocks.contains_key(id) && i < self@.blocks[id].len()
                    && p.0@ == self@.blocks[id][i as int].0 && p.1 == self@.blocks[id][i as int].1,
                Option::None => !self@.blocks.contains_key(id) || i >= self@.blocks[id].len(),
            }),
    {
        let found = self.find_block(id);
        match found {
            Option::Some(bi) => {
                proof {
                    lemma_kv_map_at(self.blocks_assoc(), bi as int);
                }
                imap_get_index(&self.blocks[bi].1, i)
            },
            Option::None => {
                proof {
                    assert forall|j: int| 0 <= j < self.blocks_assoc().len() implies (
                    #[trigger] self.blocks_assoc()[j]).0 != id by {}
                    lemma_kv_map_absent(self.blocks_assoc(), id);
                }
                Option::None
            },
        }
    }

    /// Creates the (empty) capture set for a function id if none is
    /// there.
    pub fn ensure_closure_scope(&mut self, id: usize)
        requires
            old(self).wf(),
        ensures
            final(self).wf(),
            final(self)@.closures == (if old(self)@.closures.contains_key(id) {
                old(self)@.closures
            } else {
                old(self)@.closures.insert(id, Seq::<Seq<char>>::empty())
            }),
            final(self)@.blocks == old(self)@.blocks,
            final(self)@.defs == old(self)@.defs,
    {
        let found = self.find_closure(id);
        match found {
            Option::Some(i) => {
                proof {
                    lemma_kv_map_at(self.closures_assoc(), i as int);
                }
            },
            Option::None => {
                proof {
                    assert forall|j: int| 0 <= j < self.closures_assoc().len() implies (
                    #[trigger] self.closures_assoc()[j]).0 != id by {}
                    lemma_kv_map_absent(self.closures_assoc(), id);
                }
                let ghost before = self.closures_assoc();
                let m = iset_new();
                self.closures.push((id, m));
                proof {
                    assert(self.closures_assoc() =~= before.push((id, Seq::<Seq<char>>::empty())));
                    lemma_kv_map_push(before, id, Seq::<Seq<char>>::empty());
                    lemma_kv_distinct_push(before, id, Seq::<Seq<char>>::empty());
                }
            },
        }
    }

    /// Appends a captured name to a function's capture set (keeping
    /// the set's insertion order, with no duplicates).
    pub fn add_closure_name(&mut self, id: usize, name: String)
        requires
            old(self).wf(),
            old(self)@.closures.contains_key(id),
        ensures
            final(self).wf(),
            final(self)@.closures == old(self)@.closures.insert(
                id,
                set_add(old(self)@.closures[id], name@),
            ),
            final(self)@.blocks == old(self)@.blocks,
            final(self)@.defs == old(self)@.defs,
    {
        let found = self.find_closure(id);
        proof {
            if found is None {
                assert forall|j: int| 0 <= j < self.closures_assoc().len() implies (
                #[trigger] self.closures_assoc()[j]).0 != id by {}
                lemma_kv_map_absent(self.closures_assoc(), id);
            }
        }
        let i = found.unwrap();
        let ghost before = self.closures_assoc();
        let ghost old_elems = name_set_elems(&self.closures@[i as int].1);
        proof {
            lemma_kv_map_at(before, i as int);
        }
        let slot = &mut self.closures[i].1;
        iset_insert(slot, name);
        proof {
            assert(self.closures_assoc() =~= before.update(
                i as int,
                (id, set_add(old_elems, name@)),
            ));
            crate::assoc::lemma_kv_map_update(before, i as int, id, set_add(old_elems, name@));
            crate::assoc::lemma_kv_distinct_update(
                before,
                i as int,
                id,
                set_add(old_elems, name@),
            );
        }
    }

    /// Whether a function's capture set holds `name`.
    pub fn closure_contains(&self, id: usize, name: &String) -> (r: bool)
        requires
            self.wf(),
        ensures
            r == (self@.closures.contains_key(id) && self@.closures[id].contains(name@)),
    {
        let found = self.find_closure(id);
        match found {
            Option::Some(i) => {
                proof {
                    lemma_kv_map_at(self.closures_assoc(), i as int);
                }
                iset_contains(&self.closures[i].1, name)
            },
            Option::None => {
                proof {
                    assert forall|j: int| 0 <= j < self.closures_assoc().len() implies (
                    #[trigger] self.closures_assoc()[j]).0 != id by {}
                    lemma_kv_map_absent(self.closures_assoc(), id);
                }
                false
            },
        }
    }

    /// How many names a function's capture set holds.
    pub fn closure_len(&self, id: usize) -> (r: usize)
        requires
            self.wf(),
        ensures
            r == (if self@.closures.contains_key(id) {
                self@.closures[id].len()
            } else {
                0
            }),
    {
        let found = self.find_closure(id);
        match found {
            Option::Some(i) => {
                proof {
                    lemma_kv_map_at(self.closures_assoc(), i as int);
                }
                iset_len(&self.closures[i].1)
            },
            Option::None => {
                proof {
                    assert forall|j: int| 0 <= j < self.closures_assoc().len() implies (
                    #[trigger] self.closures_assoc()[j]).0 != id by {}
                    lemma_kv_map_absent(self.closures_assoc(), id);
                }
                0
            },
        }
    }

    /// The `i`th captured name of a function, in capture order.
    pub fn closure_name_at(&self, id: usize, i: usize) -> (r: Option<String>)
        requires
            self.wf(),
        ensures
            (match r {
                Option::Some(e) => self@.closures.contains_key(id) && i < self@.closures[id].len()
                    && e@ == self@.closures[id][i as int],
                Option::None => !self@.closures.contains_key(id) || i >= self@.closures[id].len(),
            }),
    {
        let found = self.find_closure(id);
        match found {
            Option::Some(ci) => {
                proof {
                    lemma_kv_map_at(self.closures_assoc(), ci as int);
                }
                iset_get_index(&self.closures[ci].1, i)
            },
            Option::None => {
                proof {
                    assert forall|j: int| 0 <= j < self.closures_assoc().len() implies (
                    #[trigger] self.closures_assoc()[j]).0 != id by {}
                    lemma_kv_map_absent(self.closures_assoc(), id);
                }
                Option::None
            },
        }
    }

    /// Records which declaration a name use resolves to.
    pub fn set_definition(&mut self, use_id: usize, def: DefKey)
        requires
            old(self).wf(),
        ensures
            final(self).wf(),
            final(self)@.defs == old(self)@.defs.insert(use_id, def),
            final(self)@.blocks == old(self)@.blocks,
            final(self)@.closures == old(self)@.closures,
    {
        let mut i: usize = 0;
        while i < self.definitions.len()
            invariant
                i <= self.definitions@.len(),
                forall|j: int| 0 <= j < i ==> (#[trigger] self.definitions@[j]).0 != use_id,
                self == old(self),
                old(self).wf(),
            decreases self.definitions@.len() - i,
        {
            if self.definitions[i].0 == use_id {
                let ghost before = self.definitions@;
                let slot = &mut self.definitions[i];
                *slot = (use_id, def);
                proof {
                    crate::assoc::lemma_kv_map_update(before, i as int, use_id, def);
                    crate::assoc::lemma_kv_distinct_update(before, i as int, use_id, def);
                }
                return ;
            }
            i = i + 1;
        }
        let ghost before = self.definitions@;
        self.definitions.push((use_id, def));
        proof {
            lemma_kv_map_push(before, use_id, def);
            lemma_kv_distinct_push(before, use_id, def);
        }
    }

    /// The declaration a name use was resolved to, if any.
    pub fn get_definition(&self, use_id: usize) -> (r: Option<DefKey>)
        requires
            self.wf(),
        ensures
            r == (if self@.defs.contains_key(use_id) {
                Option::Some(self@.defs[use_id])
            } else {
                Option::<DefKey>::None
            }),
    {
        let mut i: usize = 0;
        while i < self.definitions.len()
            invariant
                i <= self.definitions@.len(),
                forall|j: int| 0 <= j < i ==> (#[trigger] self.definitions@[j]).0 != use_id,
                self.wf(),
            decreases self.definitions@.len() - i,
        {
            if self.definitions[i].0 == use_id {
                proof {
                    lemma_kv_map_at(self.definitions@, i as int);
                }
                return Option::Some(self.definitions[i].1);
            }
            i = i + 1;
        }
        proof {
            lemma_kv_map_absent(self.definitions@, use_id);
        }
        Option::None
    }
}

impl View for Annotations {
    type V = AnnView;

    open spec fn view(&self) -> AnnView {
        AnnView {
            blocks: kv_map(self.blocks_assoc()),
            closures: kv_map(self.closures_assoc()),
            defs: kv_map(self.definitions@),
        }
    }
}


} // verus!
