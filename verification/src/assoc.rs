//! Association sequences viewed as maps.
//!
//! The side tables of both passes (scope tables, capture sets, the type
//! map) are stored as vectors of key/value pairs with pairwise distinct
//! keys. This module gives the sequence-to-map abstraction and the
//! lemmas that connect the vector operations to `Map` operations.

use vstd::prelude::*;

verus! {

/// The map described by an association sequence; a later binding for a
/// key overrides an earlier one (with distinct keys, there is none).
pub open spec fn kv_map<K, V>(s: Seq<(K, V)>) -> Map<K, V>
    decreases s.len(),
{
    if s.len() == 0 {
        Map::empty()
    } else {
        kv_map(s.drop_last()).insert(s.last().0, s.last().1)
    }
}

/// Keys are pairwise distinct.
pub open spec fn kv_distinct<K, V>(s: Seq<(K, V)>) -> bool {
    forall|i: int, j: int| 0 <= i < j < s.len() ==> (#[trigger] s[i]).0 != (#[trigger] s[j]).0
}

/// A key that appears nowhere is not in the map.
pub proof fn lemma_kv_map_absent<K, V>(s: Seq<(K, V)>, k: K)
    requires
        forall|i: int| 0 <= i < s.len() ==> (#[trigger] s[i]).0 != k,
    ensures
        !kv_map(s).contains_key(k),
    decreases s.len(),
{
    if s.len() > 0 {
        assert forall|i: int| 0 <= i < s.drop_last().len() implies (#[trigger] s.drop_last()[i]).0
            != k by {
            assert(s.drop_last()[i] == s[i]);
        }
        lemma_kv_map_absent(s.drop_last(), k);
        assert(s.last() == s[s.len() - 1]);
    }
}

/// With distinct keys, the pair at index `i` gives the map's binding.
pub proof fn lemma_kv_map_at<K, V>(s: Seq<(K, V)>, i: int)
    requires
        kv_distinct(s),
        0 <= i < s.len(),
    ensures
        kv_map(s).contains_key(s[i].0),
        kv_map(s)[s[i].0] == s[i].1,
    decreases s.len(),
{
    if i == s.len() - 1 {
        assert(s.last() == s[i]);
    } else {
        assert forall|a: int, b: int| 0 <= a < b < s.drop_last().len() implies (#[trigger] s.drop_last()[a]).0
            != (#[trigger] s.drop_last()[b]).0 by {
            assert(s.drop_last()[a] == s[a]);
            assert(s.drop_last()[b] == s[b]);
        }
        assert(s.drop_last()[i] == s[i]);
        lemma_kv_map_at(s.drop_last(), i);
        assert(s.last() == s[s.len() - 1]);
        assert(s[s.len() - 1].0 != s[i].0);
    }
}

/// Pushing a pair inserts its binding.
pub proof fn lemma_kv_map_push<K, V>(s: Seq<(K, V)>, k: K, v: V)
    ensures
        kv_map(s.push((k, v))) == kv_map(s).insert(k, v),
{
    assert(s.push((k, v)).drop_last() =~= s);
    assert(s.push((k, v)).last() == (k, v));
}

/// Overwriting the pair holding key `k` in place updates the binding.
pub proof fn lemma_kv_map_update<K, V>(s: Seq<(K, V)>, i: int, k: K, v: V)
    requires
        kv_distinct(s),
        0 <= i < s.len(),
        s[i].0 == k,
    ensures
        kv_map(s.update(i, (k, v))) == kv_map(s).insert(k, v),
    decreases s.len(),
{
    let s2 = s.update(i, (k, v));
    if i == s.len() - 1 {
        assert(s2.drop_last() =~= s.drop_last());
        assert(s2.last() == (k, v));
        assert(kv_map(s).insert(k, v) =~= kv_map(s.drop_last()).insert(k, v));
    } else {
        assert forall|a: int, b: int| 0 <= a < b < s.drop_last().len() implies (#[trigger] s.drop_last()[a]).0
            != (#[trigger] s.drop_last()[b]).0 by {
            assert(s.drop_last()[a] == s[a]);
            assert(s.drop_last()[b] == s[b]);
        }
        assert(s.drop_last()[i] == s[i]);
        lemma_kv_map_update(s.drop_last(), i, k, v);
        assert(s2.drop_last() =~= s.drop_last().update(i, (k, v)));
        assert(s2.last() == s.last());
        assert(s.last() == s[s.len() - 1]);
        assert(s[s.len() - 1].0 != k);
        assert(kv_map(s.drop_last()).insert(k, v).insert(s.last().0, s.last().1)
            =~= kv_map(s.drop_last()).insert(s.last().0, s.last().1).insert(k, v));
    }
}

/// A key in the map is held by some pair of the sequence.
pub proof fn lemma_kv_map_contains_index<K, V>(s: Seq<(K, V)>, k: K)
    requires
        kv_map(s).contains_key(k),
    ensures
        exists|i: int| 0 <= i < s.len() && (#[trigger] s[i]).0 == k,
    decreases s.len(),
{
    if s.len() > 0 {
        if s.last().0 == k {
            assert(s[s.len() - 1].0 == k);
        } else {
            lemma_kv_map_contains_index(s.drop_last(), k);
            let i = choose|i: int|
                0 <= i < s.drop_last().len() && (#[trigger] s.drop_last()[i]).0 == k;
            assert(s[i].0 == k);
        }
    }
}

/// Distinctness survives pushing a key that is not yet there.
pub proof fn lemma_kv_distinct_push<K, V>(s: Seq<(K, V)>, k: K, v: V)
    requires
        kv_distinct(s),
        forall|i: int| 0 <= i < s.len() ==> (#[trigger] s[i]).0 != k,
    ensures
        kv_distinct(s.push((k, v))),
{
    let s2 = s.push((k, v));
    assert forall|i: int, j: int| 0 <= i < j < s2.len() implies (#[trigger] s2[i]).0
        != (#[trigger] s2[j]).0 by {
        if j < s.len() {
            assert(s2[i] == s[i]);
            assert(s2[j] == s[j]);
        } else {
            assert(s2[i] == s[i]);
            assert(s2[j] == (k, v));
        }
    }
}

/// Distinctness survives overwriting a pair with the same key.
pub proof fn lemma_kv_distinct_update<K, V>(s: Seq<(K, V)>, i: int, k: K, v: V)
    requires
        kv_distinct(s),
        0 <= i < s.len(),
        s[i].0 == k,
    ensures
        kv_distinct(s.update(i, (k, v))),
{
    let s2 = s.update(i, (k, v));
    assert forall|a: int, b: int| 0 <= a < b < s2.len() implies (#[trigger] s2[a]).0
        != (#[trigger] s2[b]).0 by {
        assert(s[a].0 != s[b].0);
        if a != i {
            assert(s2[a] == s[a]);
        }
        if b != i {
            assert(s2[b] == s[b]);
        }
    }
}

} // verus!
