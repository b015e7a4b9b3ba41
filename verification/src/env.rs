//! Listing environment variables, sorted by name.

use vstd::prelude::*;
use vstd::string::*;

use crate::item::{item_is, Item};
use crate::order::{
    chars_lt, entry_views, key_lt, lemma_sort_permutes, lemma_sort_sorted, sort_entries,
    sort_spec, KeyView, SortKey,
};
use crate::provider::{Context, Provider};
use crate::text::{chars_of, ellipsize, ellipsized};

verus! {

/// Variables are sorted by name alone.
pub open spec fn env_key(p: (String, String)) -> KeyView {
    (0u64, p.0@, Seq::empty())
}

/// The variables keyed for sorting.
pub open spec fn env_entries(pairs: Seq<(String, String)>) -> Seq<(KeyView, (String, String))> {
    pairs.map_values(|p: (String, String)| (env_key(p), p))
}

/// How a variable is shown: `NAME=value`, long values cut with an ellipsis.
pub open spec fn env_label(name: Seq<char>, value: Seq<char>) -> Seq<char> {
    name + seq!['='] + ellipsized(value)
}

/// `items` list the variables sorted by name, each with its name as raw
/// text and `NAME=value` as label.
pub open spec fn are_env_items(items: Seq<Item>, pairs: Seq<(String, String)>) -> bool {
    let sorted = sort_spec(env_entries(pairs));
    &&& items.len() == sorted.len()
    &&& forall|k: int|
        0 <= k < items.len() ==> item_is(
            #[trigger] items[k],
            0,
            sorted[k].1.0@,
            env_label(sorted[k].1.0@, sorted[k].1.1@),
            None,
            None,
        )
}

/// The items for the given `(name, value)` pairs.
pub fn env_items(pairs: Vec<(String, String)>) -> (r: Vec<Item>)
    ensures
        are_env_items(r@, pairs@),
{
    let mut entries: Vec<(SortKey, (String, String))> = Vec::new();
    let n = pairs.len();
    for i in 0..n
        invariant
            n == pairs@.len(),
            entries@.len() == i,
            entry_views(entries@) == env_entries(pairs@.take(i as int)),
    {
        let key = SortKey { num: 0, first: chars_of(pairs[i].0.as_str()), second: Vec::new() };
        let p = (pairs[i].0.clone(), pairs[i].1.clone());
        let ghost before = entries@;
        assert(key@ == env_key(pairs@[i as int]));
        assert(p == pairs@[i as int]);
        entries.push((key, p));
        assert forall|j: int| 0 <= j < i + 1 implies #[trigger] entry_views(entries@)[j]
            == env_entries(pairs@.take(i + 1))[j] by {
            if j < i {
                assert(entries@[j] == before[j]);
                assert(entry_views(before)[j] == env_entries(pairs@.take(i as int))[j]);
            }
        }
        assert(entry_views(entries@) =~= env_entries(pairs@.take(i + 1)));
    }
    assert(pairs@.take(n as int) =~= pairs@);
    let sorted = sort_entries(entries);
    let ghost sv = sort_spec(env_entries(pairs@));
    let mut items: Vec<Item> = Vec::new();
    let m = sorted.len();
    for k in 0..m
        invariant
            m == sorted@.len() == sv.len(),
            entry_views(sorted@) == sv,
            items@.len() == k,
            forall|j: int|
                0 <= j < k ==> item_is(
                    #[trigger] items@[j],
                    0,
                    sv[j].1.0@,
                    env_label(sv[j].1.0@, sv[j].1.1@),
                    None,
                    None,
                ),
    {
        assert(sv[k as int] == (sorted@[k as int].0@, sorted@[k as int].1));
        let name = &sorted[k].1.0;
        let mut label = name.clone();
        label.append("=");
        let shown = ellipsize(sorted[k].1.1.as_str());
        label.append(shown.as_str());
        proof {
            reveal_strlit("=");
        }
        assert(label@ == name@ + seq!['='] + ellipsized(sorted@[k as int].1.1@));
        let it = Item::new(0, name.as_str(), label.as_str());
        assert(item_is(it, 0, sv[k as int].1.0@, env_label(sv[k as int].1.0@, sv[k as int].1.1@), None, None));
        let ghost old_items = items@;
        items.push(it);
        assert(forall|j: int| 0 <= j < k ==> items@[j] == old_items[j]);
    }
    items
}

/// Environment variables.
#[derive(Debug, Clone, Copy)]
pub struct EnvProvider;

impl EnvProvider {
    pub fn new() -> (r: EnvProvider) {
        EnvProvider
    }

    /// The environment is always there to list.
    pub fn detect(&self, ctx: &Context) -> (r: bool)
        ensures
            r,
    {
        true
    }
}

impl Default for EnvProvider {
    fn default() -> (r: EnvProvider) {
        EnvProvider::new()
    }
}

impl Provider for EnvProvider {
    fn name(&self) -> (r: &str)
        ensures
            r@ == "env"@,
    {
        "env"
    }

    /// `printenv NAME`.
    fn preview_cmd(&self, item: &Item) -> (r: Option<String>)
        ensures
            r matches Some(c) && c@ == "printenv "@ + item.raw@,
    {
        let mut c = String::from_str("printenv ");
        c.append(item.raw.as_str());
        Some(c)
    }
}

/// Every sorted entry carries its own variable's key.
proof fn lemma_env_sorted_keys(pairs: Seq<(String, String)>)
    ensures
        forall|k: int|
            0 <= k < sort_spec(env_entries(pairs)).len() ==> (#[trigger] sort_spec(
                env_entries(pairs),
            )[k]).0 == env_key(sort_spec(env_entries(pairs))[k].1),
{
    let e = env_entries(pairs);
    let s = sort_spec(e);
    lemma_sort_permutes(e);
    assert forall|k: int| 0 <= k < s.len() implies (#[trigger] s[k]).0 == env_key(s[k].1) by {
        vstd::seq_lib::to_multiset_contains(s, s[k]);
        vstd::seq_lib::to_multiset_contains(e, s[k]);
        assert(s.contains(s[k]));
        let i = choose|i: int| 0 <= i < e.len() && e[i] == s[k];
        assert(e[i] == (env_key(pairs[i]), pairs[i]));
    }
}

/// Variables are listed sorted by name: no name comes after a later one.
pub proof fn law_env_sorted(items: Seq<Item>, pairs: Seq<(String, String)>)
    requires
        are_env_items(items, pairs),
    ensures
        forall|i: int, j: int|
            0 <= i < j < items.len() ==> !chars_lt(#[trigger] items[j].raw@, #[trigger] items[i].raw@),
{
    let s = sort_spec(env_entries(pairs));
    lemma_sort_sorted(env_entries(pairs));
    lemma_env_sorted_keys(pairs);
    assert forall|i: int, j: int| 0 <= i < j < items.len() implies !chars_lt(
        #[trigger] items[j].raw@,
        #[trigger] items[i].raw@,
    ) by {
        assert(!key_lt(s[j].0, s[i].0));
        assert(s[j].0 == env_key(s[j].1));
        assert(s[i].0 == env_key(s[i].1));
        assert(item_is(items[i], 0, s[i].1.0@, env_label(s[i].1.0@, s[i].1.1@), None, None));
        assert(item_is(items[j], 0, s[j].1.0@, env_label(s[j].1.0@, s[j].1.1@), None, None));
    }
}

} // verus!
