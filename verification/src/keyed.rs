//! Small association tables keyed by strings.
//!
//! Several parts of the gateway keep a list of `(name, value)` pairs with
//! pairwise-distinct names: the discovery cache, the subscribed-instance
//! table and the configuration cache. The spec-level shape of such a table
//! and its lookup and upsert are shared here.

use vstd::prelude::*;

verus! {

/// The spec-level pairs of an association vector.
pub open spec fn keyed_view<V>(m: Seq<(String, V)>) -> Seq<(Seq<char>, V)> {
    m.map_values(|p: (String, V)| (p.0@, p.1))
}

/// Whether the keys are pairwise distinct.
pub open spec fn keys_distinct<V>(m: Seq<(Seq<char>, V)>) -> bool {
    forall|i: int, j: int| 0 <= i < j < m.len() ==> (#[trigger] m[i]).0 != (#[trigger] m[j]).0
}

/// The index of the first pair under `key`, or `-1`.
pub open spec fn spec_index_of_key<V>(m: Seq<(Seq<char>, V)>, key: Seq<char>) -> int
    decreases m.len(),
{
    if m.len() == 0 {
        -1
    } else if m[0].0 == key {
        0
    } else {
        let r = spec_index_of_key(m.drop_first(), key);
        if r < 0 {
            -1
        } else {
            r + 1
        }
    }
}

/// The value stored under `key`, if any.
pub open spec fn spec_lookup_key<V>(m: Seq<(Seq<char>, V)>, key: Seq<char>) -> Option<V> {
    let i = spec_index_of_key(m, key);
    if i >= 0 {
        Some(m[i].1)
    } else {
        None
    }
}

/// The table with `v` stored under `key`: the first pair under `key` is
/// replaced, or a new pair is appended.
pub open spec fn spec_upsert<V>(m: Seq<(Seq<char>, V)>, key: Seq<char>, v: V) -> Seq<
    (Seq<char>, V),
> {
    let i = spec_index_of_key(m, key);
    if i >= 0 {
        m.update(i, (key, v))
    } else {
        m.push((key, v))
    }
}

pub proof fn lemma_index_of_key_props<V>(m: Seq<(Seq<char>, V)>, key: Seq<char>)
    ensures
        -1 <= spec_index_of_key(m, key) < m.len(),
        spec_index_of_key(m, key) >= 0 ==> m[spec_index_of_key(m, key)].0 == key,
        forall|i: int|
            0 <= i < m.len() && (spec_index_of_key(m, key) < 0 || i < spec_index_of_key(m, key))
                ==> (#[trigger] m[i]).0 != key,
    decreases m.len(),
{
    if m.len() > 0 && m[0].0 != key {
        lemma_index_of_key_props(m.drop_first(), key);
        assert(forall|i: int| 1 <= i < m.len() ==> (#[trigger] m[i]) == m.drop_first()[i - 1]);
    }
}

/// An upsert keeps the keys pairwise distinct and stores `v` under `key`.
pub proof fn lemma_upsert_props<V>(m: Seq<(Seq<char>, V)>, key: Seq<char>, v: V)
    requires
        keys_distinct(m),
    ensures
        keys_distinct(spec_upsert(m, key, v)),
        spec_lookup_key(spec_upsert(m, key, v), key) == Some(v),
{
    lemma_index_of_key_props(m, key);
    let i = spec_index_of_key(m, key);
    let r = spec_upsert(m, key, v);
    if i >= 0 {
        assert forall|a: int, b: int| 0 <= a < b < r.len() implies (#[trigger] r[a]).0
            != (#[trigger] r[b]).0 by {
            assert(r[a] == m[a] || (a == i && r[a].0 == key && m[a].0 == key));
            assert(r[b] == m[b] || (b == i && r[b].0 == key && m[b].0 == key));
        }
        lemma_index_of_key_props(r, key);
        let f = spec_index_of_key(r, key);
        assert(r[i].0 == key);
        if f < i {
            assert(r[f] == m[f]);
        }
        assert(f == i);
    } else {
        assert forall|a: int, b: int| 0 <= a < b < r.len() implies (#[trigger] r[a]).0
            != (#[trigger] r[b]).0 by {
            if b == m.len() {
                assert(r[a] == m[a]);
                assert(m[a].0 != key);
            }
        }
        lemma_index_of_key_props(r, key);
        let f = spec_index_of_key(r, key);
        assert(r[m.len() as int].0 == key);
        if f < m.len() {
            assert(r[f] == m[f]);
        }
        assert(f == m.len());
    }
}

/// The index of the first pair of `m` whose key is `key`, if any.
pub fn find_key_index<V>(m: &Vec<(String, V)>, key: &String) -> (r: Option<usize>)
    ensures
        match r {
            Some(i) => i < m@.len() && spec_index_of_key(keyed_view(m@), key@) == i,
            None => spec_index_of_key(keyed_view(m@), key@) == -1,
        },
{
    proof {
        lemma_index_of_key_props(keyed_view(m@), key@);
    }
    let len = m.len();
    let mut i: usize = 0;
    while i < len
        invariant
            len == m@.len(),
            i <= len,
            forall|j: int| 0 <= j < i ==> (#[trigger] keyed_view(m@)[j]).0 != key@,
        decreases len - i,
    {
        if m[i].0 == *key {
            proof {
                lemma_index_of_key_props(keyed_view(m@), key@);
                assert(keyed_view(m@)[i as int].0 == key@);
            }
            return Some(i);
        }
        i = i + 1;
    }
    proof {
        lemma_index_of_key_props(keyed_view(m@), key@);
    }
    None
}

} // verus!
