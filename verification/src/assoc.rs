//! Association lists keyed by strings: a vector of `(key, value)` pairs in
//! which no key occurs twice, read as a map from key to value.

use vstd::prelude::*;
use vstd::string::*;

use crate::text::str_eq;

verus! {

/// No key occurs twice.
pub open spec fn keys_distinct<V>(m: Seq<(String, V)>) -> bool {
    forall|i: int, j: int| 0 <= i < j < m.len() ==> #[trigger] m[i].0@ != #[trigger] m[j].0@
}

/// Whether some pair has key `k`.
pub open spec fn has_key<V>(m: Seq<(String, V)>, k: Seq<char>) -> bool {
    exists|i: int| 0 <= i < m.len() && m[i].0@ == k
}

/// The list read as a map from key to value.
pub open spec fn assoc_map<V>(m: Seq<(String, V)>) -> Map<Seq<char>, V> {
    Map::new(
        |k: Seq<char>| has_key(m, k),
        |k: Seq<char>| m[choose|i: int| 0 <= i < m.len() && m[i].0@ == k].1,
    )
}

/// In a list without repeated keys, the pair at `i` gives the value of its key.
pub proof fn lemma_assoc_map_at<V>(m: Seq<(String, V)>, i: int)
    requires
        keys_distinct(m),
        0 <= i < m.len(),
    ensures
        assoc_map(m).contains_key(m[i].0@),
        assoc_map(m)[m[i].0@] == m[i].1,
{
    let k = m[i].0@;
    assert(has_key(m, k));
    let j = choose|j: int| 0 <= j < m.len() && m[j].0@ == k;
    assert(j == i);
}

/// The position of the pair with key `key`, if any.
pub fn assoc_find<V>(m: &Vec<(String, V)>, key: &str) -> (r: Option<usize>)
    ensures
        r matches Some(i) ==> i < m@.len() && m@[i as int].0@ == key@,
        r is None ==> !has_key(m@, key@),
{
    let n = m.len();
    for i in 0..n
        invariant
            n == m@.len(),
            forall|j: int| 0 <= j < i ==> m@[j].0@ != key@,
    {
        if str_eq(m[i].0.as_str(), key) {
            return Some(i);
        }
    }
    None
}

/// Maps `key` to `value`: the pair with that key gets the new value, or a
/// new pair is appended.
pub fn assoc_insert<V>(m: &mut Vec<(String, V)>, key: &str, value: V)
    requires
        keys_distinct(old(m)@),
    ensures
        keys_distinct(final(m)@),
        assoc_map(final(m)@) == assoc_map(old(m)@).insert(key@, value),
{
    let ghost m0 = m@;
    match assoc_find(m, key) {
        Some(i) => {
            let k = m[i].0.clone();
            m.set(i, (k, value));
            proof {
                lemma_replace(m0, m@, i as int, key@, value);
            }
        },
        None => {
            m.push((String::from_str(key), value));
            assert(m@.take(m0.len() as int) == m0);
            proof {
                lemma_push(m0, m@, key@, value);
            }
        },
    }
}

proof fn lemma_replace<V>(m: Seq<(String, V)>, m2: Seq<(String, V)>, i: int, key: Seq<char>, value: V)
    requires
        keys_distinct(m),
        0 <= i < m.len(),
        m[i].0@ == key,
        m2 == m.update(i, (m[i].0, value)),
    ensures
        keys_distinct(m2),
        assoc_map(m2) == assoc_map(m).insert(key, value),
{
    assert(keys_distinct(m2)) by {
        assert forall|a: int, b: int| 0 <= a < b < m2.len() implies #[trigger] m2[a].0@
            != #[trigger] m2[b].0@ by {
            assert(m2[a].0 == m[a].0);
            assert(m2[b].0 == m[b].0);
            assert(m[a].0@ != m[b].0@);
        }
    }
    assert(assoc_map(m2) =~= assoc_map(m).insert(key, value)) by {
        assert forall|k: Seq<char>| #[trigger] assoc_map(m2).dom().contains(k) == assoc_map(
            m,
        ).insert(key, value).dom().contains(k) by {
            if has_key(m, k) {
                let j = choose|j: int| 0 <= j < m.len() && m[j].0@ == k;
                assert(m2[j].0@ == k);
            }
            if has_key(m2, k) {
                let j = choose|j: int| 0 <= j < m2.len() && m2[j].0@ == k;
                assert(m[j].0@ == k);
            }
        }
        assert forall|k: Seq<char>| #[trigger] assoc_map(m2).dom().contains(k) implies assoc_map(
            m2,
        )[k] == assoc_map(m).insert(key, value)[k] by {
            let j2 = choose|j: int| 0 <= j < m2.len() && m2[j].0@ == k;
            if k == key {
                assert(j2 == i);
            } else {
                let j = choose|j: int| 0 <= j < m.len() && m[j].0@ == k;
                assert(m2[j].0@ == k);
                assert(j == j2);
            }
        }
    }
}

proof fn lemma_push<V>(m: Seq<(String, V)>, m2: Seq<(String, V)>, key: Seq<char>, value: V)
    requires
        keys_distinct(m),
        !has_key(m, key),
        m2.len() == m.len() + 1,
        m2.take(m.len() as int) == m,
        m2[m.len() as int].0@ == key,
        m2[m.len() as int].1 == value,
    ensures
        keys_distinct(m2),
        assoc_map(m2) == assoc_map(m).insert(key, value),
{
    assert forall|j: int| 0 <= j < m.len() implies m2[j] == m[j] by {
        assert(m2.take(m.len() as int)[j] == m2[j]);
    }
    assert(keys_distinct(m2)) by {
        assert forall|a: int, b: int| 0 <= a < b < m2.len() implies #[trigger] m2[a].0@
            != #[trigger] m2[b].0@ by {
            if b < m.len() {
                assert(m[a].0@ != m[b].0@);
            }
        }
    }
    assert(assoc_map(m2) =~= assoc_map(m).insert(key, value)) by {
        assert forall|k: Seq<char>| #[trigger] assoc_map(m2).dom().contains(k) == assoc_map(
            m,
        ).insert(key, value).dom().contains(k) by {
            if has_key(m, k) {
                let j = choose|j: int| 0 <= j < m.len() && m[j].0@ == k;
                assert(m2[j].0@ == k);
            }
            if k == key {
                assert(m2[m.len() as int].0@ == k);
            }
            if has_key(m2, k) {
                let j = choose|j: int| 0 <= j < m2.len() && m2[j].0@ == k;
                if j < m.len() {
                    assert(m[j].0@ == k);
                }
            }
        }
        assert forall|k: Seq<char>| #[trigger] assoc_map(m2).dom().contains(k) implies assoc_map(
            m2,
        )[k] == assoc_map(m).insert(key, value)[k] by {
            let j2 = choose|j: int| 0 <= j < m2.len() && m2[j].0@ == k;
            if k == key {
                assert(j2 == m.len());
            } else {
                let j = choose|j: int| 0 <= j < m.len() && m[j].0@ == k;
                assert(m2[j].0@ == k);
                assert(j == j2);
            }
        }
    }
}

} // verus!
