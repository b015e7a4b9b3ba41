//! Ordering listings: a key of a number and two texts, compared in that
//! order, and a stable sort of keyed entries stated as insertion into an
//! already sorted sequence.
//!
//! Texts compare as Rust's `str` and `String` do: byte-wise on UTF-8, which
//! is the lexicographic order of their characters by code point, a proper
//! prefix coming first.

use vstd::prelude::*;

verus! {

/// Whether `a` comes strictly before `b` in the lexicographic order of
/// characters by code point.
pub open spec fn chars_lt(a: Seq<char>, b: Seq<char>) -> bool
    decreases a.len(),
{
    if b.len() == 0 {
        false
    } else if a.len() == 0 {
        true
    } else if a[0] != b[0] {
        (a[0] as u32) < (b[0] as u32)
    } else {
        chars_lt(a.drop_first(), b.drop_first())
    }
}

/// A sort key as values: the number, then the first text, then the second.
pub type KeyView = (u64, Seq<char>, Seq<char>);

/// Strict order of keys: by number, then by first text, then by second.
pub open spec fn key_lt(a: KeyView, b: KeyView) -> bool {
    ||| a.0 < b.0
    ||| a.0 == b.0 && chars_lt(a.1, b.1)
    ||| a.0 == b.0 && a.1 == b.1 && chars_lt(a.2, b.2)
}

/// A key an entry is sorted by.
#[derive(Debug, Clone)]
pub struct SortKey {
    pub num: u64,
    pub first: Vec<char>,
    pub second: Vec<char>,
}

impl View for SortKey {
    type V = KeyView;

    open spec fn view(&self) -> KeyView {
        (self.num, self.first@, self.second@)
    }
}

/// Entries with their keys as values.
pub open spec fn entry_views<T>(s: Seq<(SortKey, T)>) -> Seq<(KeyView, T)> {
    s.map_values(|e: (SortKey, T)| (e.0@, e.1))
}

/// Where an entry with key `k` goes in `s`: before the first entry whose key
/// is greater, after every entry that is not.
pub open spec fn insert_pos<T>(s: Seq<(KeyView, T)>, k: KeyView) -> int
    decreases s.len(),
{
    if s.len() == 0 {
        0
    } else if key_lt(k, s[0].0) {
        0
    } else {
        1 + insert_pos(s.drop_first(), k)
    }
}

/// `s` with `e` inserted at its place.
pub open spec fn sorted_insert<T>(s: Seq<(KeyView, T)>, e: (KeyView, T)) -> Seq<(KeyView, T)> {
    s.insert(insert_pos(s, e.0), e)
}

/// The entries sorted by key, entries with equal keys in their given
/// order: each entry in turn inserted at its place.
pub open spec fn sort_spec<T>(s: Seq<(KeyView, T)>) -> Seq<(KeyView, T)>
    decreases s.len(),
{
    if s.len() == 0 {
        s
    } else {
        sorted_insert(sort_spec(s.drop_last()), s.last())
    }
}

/// No entry has a key greater than a later entry's.
pub open spec fn is_sorted<T>(s: Seq<(KeyView, T)>) -> bool {
    forall|i: int, j: int| 0 <= i < j < s.len() ==> !key_lt(#[trigger] s[j].0, #[trigger] s[i].0)
}

pub proof fn lemma_chars_lt_irreflexive(a: Seq<char>)
    ensures
        !chars_lt(a, a),
    decreases a.len(),
{
    if a.len() > 0 {
        lemma_chars_lt_irreflexive(a.drop_first());
    }
}

pub proof fn lemma_chars_lt_transitive(a: Seq<char>, b: Seq<char>, c: Seq<char>)
    requires
        chars_lt(a, b),
        chars_lt(b, c),
    ensures
        chars_lt(a, c),
    decreases a.len(),
{
    if a.len() > 0 && b.len() > 0 && c.len() > 0 && a[0] == b[0] && b[0] == c[0] {
        lemma_chars_lt_transitive(a.drop_first(), b.drop_first(), c.drop_first());
    }
}

pub proof fn lemma_chars_lt_asymmetric(a: Seq<char>, b: Seq<char>)
    requires
        chars_lt(a, b),
    ensures
        !chars_lt(b, a),
{
    if chars_lt(b, a) {
        lemma_chars_lt_transitive(a, b, a);
        lemma_chars_lt_irreflexive(a);
    }
}

pub proof fn lemma_key_lt_irreflexive(a: KeyView)
    ensures
        !key_lt(a, a),
{
    lemma_chars_lt_irreflexive(a.1);
    lemma_chars_lt_irreflexive(a.2);
}

pub proof fn lemma_key_lt_transitive(a: KeyView, b: KeyView, c: KeyView)
    requires
        key_lt(a, b),
        key_lt(b, c),
    ensures
        key_lt(a, c),
{
    if a.0 == b.0 && b.0 == c.0 {
        if chars_lt(a.1, b.1) && chars_lt(b.1, c.1) {
            lemma_chars_lt_transitive(a.1, b.1, c.1);
        } else if chars_lt(a.1, b.1) {
        } else if chars_lt(b.1, c.1) {
        } else {
            lemma_chars_lt_transitive(a.2, b.2, c.2);
        }
    }
}

/// An entry's place, characterised: every entry before it is not greater,
/// and the entry at it, if any, is greater.
pub proof fn lemma_insert_pos<T>(s: Seq<(KeyView, T)>, k: KeyView, i: int)
    requires
        0 <= i <= s.len(),
        forall|j: int| 0 <= j < i ==> !key_lt(k, #[trigger] s[j].0),
        i == s.len() || key_lt(k, s[i].0),
    ensures
        insert_pos(s, k) == i,
    decreases s.len(),
{
    if s.len() > 0 && i > 0 {
        assert(!key_lt(k, s[0].0));
        assert forall|j: int| 0 <= j < i - 1 implies !key_lt(k, #[trigger] s.drop_first()[j].0) by {
            assert(s.drop_first()[j] == s[j + 1]);
        }
        lemma_insert_pos(s.drop_first(), k, i - 1);
    }
}

proof fn lemma_insert_pos_bounds<T>(s: Seq<(KeyView, T)>, k: KeyView)
    ensures
        0 <= insert_pos(s, k) <= s.len(),
        forall|j: int| 0 <= j < insert_pos(s, k) ==> !key_lt(k, #[trigger] s[j].0),
        insert_pos(s, k) == s.len() || key_lt(k, s[insert_pos(s, k)].0),
    decreases s.len(),
{
    if s.len() > 0 && !key_lt(k, s[0].0) {
        let t = s.drop_first();
        lemma_insert_pos_bounds(t, k);
        assert forall|j: int| 0 <= j < insert_pos(s, k) implies !key_lt(k, #[trigger] s[j].0) by {
            if j > 0 {
                assert(s[j] == t[j - 1]);
            }
        }
        if insert_pos(s, k) < s.len() {
            assert(s[insert_pos(s, k)] == t[insert_pos(t, k)]);
        }
    }
}

/// Inserting an entry at its place keeps a sorted sequence sorted.
proof fn lemma_sorted_insert_sorted<T>(s: Seq<(KeyView, T)>, e: (KeyView, T))
    requires
        is_sorted(s),
    ensures
        is_sorted(sorted_insert(s, e)),
{
    lemma_insert_pos_bounds(s, e.0);
    let p = insert_pos(s, e.0);
    let r = sorted_insert(s, e);
    s.insert_ensures(p, e);
    assert forall|i: int, j: int| 0 <= i < j < r.len() implies !key_lt(
        #[trigger] r[j].0,
        #[trigger] r[i].0,
    ) by {
        if j < p {
            assert(r[i] == s[i] && r[j] == s[j]);
        } else if j == p {
            assert(r[i] == s[i]);
        } else if i > p {
            assert(r[i] == s[i - 1] && r[j] == s[j - 1]);
        } else if i == p {
            let x = s[j - 1].0;
            assert(r[j] == s[j - 1]);
            assert(key_lt(e.0, s[p].0));
            if key_lt(x, e.0) {
                if j - 1 == p {
                    lemma_key_lt_transitive(x, e.0, x);
                    lemma_key_lt_irreflexive(x);
                } else {
                    lemma_key_lt_transitive(x, e.0, s[p].0);
                    assert(!key_lt(s[j - 1].0, s[p].0));
                }
            }
        } else {
            assert(r[i] == s[i] && r[j] == s[j - 1]);
        }
    }
}

/// Inserting an entry adds exactly that entry.
proof fn lemma_sorted_insert_multiset<T>(s: Seq<(KeyView, T)>, e: (KeyView, T))
    ensures
        sorted_insert(s, e).to_multiset() == s.to_multiset().insert(e),
{
    lemma_insert_pos_bounds(s, e.0);
    let p = insert_pos(s, e.0);
    let r = sorted_insert(s, e);
    s.insert_ensures(p, e);
    assert(r.remove(p) =~= s);
    vstd::seq_lib::to_multiset_remove(r, p);
    vstd::seq_lib::to_multiset_contains(r, e);
    assert(r.to_multiset().count(e) > 0);
    assert(r.to_multiset() =~= r.to_multiset().remove(e).insert(e));
}

/// What a sort gives is sorted.
pub proof fn lemma_sort_sorted<T>(s: Seq<(KeyView, T)>)
    ensures
        is_sorted(sort_spec(s)),
    decreases s.len(),
{
    if s.len() > 0 {
        lemma_sort_sorted(s.drop_last());
        lemma_sorted_insert_sorted(sort_spec(s.drop_last()), s.last());
    }
}

/// A sort neither loses nor adds an entry: it reorders them.
pub proof fn lemma_sort_permutes<T>(s: Seq<(KeyView, T)>)
    ensures
        sort_spec(s).to_multiset() == s.to_multiset(),
        sort_spec(s).len() == s.len(),
    decreases s.len(),
{
    if s.len() > 0 {
        lemma_sort_permutes(s.drop_last());
        lemma_sorted_insert_multiset(sort_spec(s.drop_last()), s.last());
        vstd::seq_lib::to_multiset_build(s.drop_last(), s.last());
        assert(s.drop_last().push(s.last()) =~= s);
        vstd::seq_lib::to_multiset_len(sort_spec(s));
        vstd::seq_lib::to_multiset_len(s);
    }
}

/// Whether `a` comes strictly before `b`, character by character.
pub fn chars_lt_exec(a: &[char], b: &[char]) -> (r: bool)
    ensures
        r == chars_lt(a@, b@),
{
    let n = a.len();
    let m = b.len();
    let mut i: usize = 0;
    assert(a@.skip(0) == a@ && b@.skip(0) == b@);
    while i < n && i < m && a[i] == b[i]
        invariant
            i <= n == a@.len(),
            i <= m == b@.len(),
            chars_lt(a@, b@) == chars_lt(a@.skip(i as int), b@.skip(i as int)),
        decreases n - i,
    {
        assert(a@.skip(i as int).drop_first() == a@.skip(i + 1));
        assert(b@.skip(i as int).drop_first() == b@.skip(i + 1));
        i = i + 1;
    }
    if i == m {
        false
    } else if i == n {
        true
    } else {
        assert(a@.skip(i as int)[0] == a@[i as int]);
        assert(b@.skip(i as int)[0] == b@[i as int]);
        (a[i] as u32) < (b[i] as u32)
    }
}

/// Whether key `a` comes strictly before key `b`.
pub fn key_lt_exec(a: &SortKey, b: &SortKey) -> (r: bool)
    ensures
        r == key_lt(a@, b@),
{
    if a.num != b.num {
        return a.num < b.num;
    }
    if chars_lt_exec(&a.first, &b.first) {
        return true;
    }
    if chars_lt_exec(&b.first, &a.first) {
        proof {
            lemma_chars_lt_asymmetric(b.first@, a.first@);
            lemma_chars_lt_irreflexive(a.first@);
        }
        return false;
    }
    let same = crate::text::chars_eq(&a.first, &b.first);
    if !same {
        return false;
    }
    chars_lt_exec(&a.second, &b.second)
}

/// Sorts entries by key, entries with equal keys keeping their order.
pub fn sort_entries<T>(v: Vec<(SortKey, T)>) -> (r: Vec<(SortKey, T)>)
    ensures
        entry_views(r@) == sort_spec(entry_views(v@)),
{
    let ghost orig = v@;
    let mut rest = v;
    let mut out: Vec<(SortKey, T)> = Vec::new();
    let n = rest.len();
    assert(orig.skip(0) == orig);
    assert(entry_views(orig.take(0)) =~= Seq::<(KeyView, T)>::empty());
    for j in 0..n
        invariant
            n == orig.len(),
            rest@ == orig.skip(j as int),
            entry_views(out@) == sort_spec(entry_views(orig.take(j as int))),
    {
        let e = rest.remove(0);
        assert(e == orig[j as int]);
        assert(rest@ =~= orig.skip(j + 1));
        let ghost before = entry_views(out@);
        let mut i: usize = 0;
        while i < out.len() && !key_lt_exec(&e.0, &out[i].0)
            invariant
                i <= out@.len(),
                before == entry_views(out@),
                forall|k: int| 0 <= k < i ==> !key_lt(e.0@, #[trigger] before[k].0),
            decreases out@.len() - i,
        {
            i = i + 1;
        }
        proof {
            lemma_insert_pos(before, e.0@, i as int);
        }
        out.insert(i, e);
        proof {
            let ev = (e.0@, e.1);
            assert(entry_views(out@) =~= before.insert(i as int, ev));
            assert(entry_views(orig.take(j + 1)).drop_last() =~= entry_views(orig.take(j as int)));
            assert(entry_views(orig.take(j + 1)).last() == ev);
        }
    }
    assert(orig.take(n as int) =~= orig);
    out
}

} // verus!
