//! Display groups: the groups of a listing in first-seen order, collected in
//! an `indexmap::IndexSet`, and the reordering that keeps each group together.

use vstd::prelude::*;
use vstd::multiset::Multiset;

use crate::item::{opt_view, Item};

verus! {

/// An insertion-ordered set, from `indexmap`.
#[verifier::external_type_specification]
#[verifier::external_body]
#[verifier::reject_recursive_types(T)]
#[verifier::reject_recursive_types(S)]
pub struct ExIndexSet<T, S>(indexmap::IndexSet<T, S>);

/// What a set of groups holds, in insertion order, each group by its view.
pub uninterp spec fn group_set_contents(s: indexmap::IndexSet<Option<String>>) -> Seq<Option<Seq<char>>>;

/// `IndexSet::new`: an empty set.
#[verifier::external_body]
fn group_set_new() -> (s: indexmap::IndexSet<Option<String>>)
    ensures
        group_set_contents(s) == Seq::<Option<Seq<char>>>::empty(),
{
    indexmap::IndexSet::new()
}

/// `IndexSet::insert`: a value not yet present is appended at the end and
/// `true` returned; a present one leaves the set as it was and gives `false`.
/// Equality of `Option<String>` is equality of the characters.
#[verifier::external_body]
fn group_set_insert(s: &mut indexmap::IndexSet<Option<String>>, g: Option<String>) -> (fresh: bool)
    ensures
        fresh == !group_set_contents(*old(s)).contains(opt_view(g)),
        group_set_contents(*final(s)) == (if fresh {
            group_set_contents(*old(s)).push(opt_view(g))
        } else {
            group_set_contents(*old(s))
        }),
{
    s.insert(g)
}

/// `IndexSet::len`: the number of values held.
#[verifier::external_body]
fn group_set_len(s: &indexmap::IndexSet<Option<String>>) -> (n: usize)
    ensures
        n == group_set_contents(*s).len(),
{
    s.len()
}

/// `IndexSet::get_index`: the value at a position, copied out.
#[verifier::external_body]
fn group_set_get(s: &indexmap::IndexSet<Option<String>>, i: usize) -> (r: Option<Option<String>>)
    ensures
        r is Some <==> i < group_set_contents(*s).len(),
        r matches Some(g) ==> opt_view(g) == group_set_contents(*s)[i as int],
{
    s.get_index(i).cloned()
}

/// `IndexSet::get_index_of`: the position of a value, if it is held.
#[verifier::external_body]
fn group_set_index_of(s: &indexmap::IndexSet<Option<String>>, g: &Option<String>) -> (r: Option<
    usize,
>)
    ensures
        r matches Some(k) ==> k < group_set_contents(*s).len() && group_set_contents(*s)[k as int]
            == opt_view(*g),
        r is None ==> !group_set_contents(*s).contains(opt_view(*g)),
{
    s.get_index_of(g)
}

/// The groups of `items` in the order each is first seen, each once.
pub open spec fn distinct_groups(items: Seq<Item>) -> Seq<Option<Seq<char>>>
    decreases items.len(),
{
    if items.len() == 0 {
        Seq::empty()
    } else {
        let g = distinct_groups(items.drop_last());
        let x = opt_view(items.last().group);
        if g.contains(x) {
            g
        } else {
            g.push(x)
        }
    }
}

/// No value occurs twice.
pub open spec fn no_repeats<A>(s: Seq<A>) -> bool {
    forall|i: int, j: int| 0 <= i < j < s.len() ==> s[i] != s[j]
}

/// The items of group `g`, in their order.
pub open spec fn group_items(items: Seq<Item>, g: Option<Seq<char>>) -> Seq<Item>
    decreases items.len(),
{
    if items.len() == 0 {
        Seq::empty()
    } else if opt_view(items.last().group) == g {
        group_items(items.drop_last(), g).push(items.last())
    } else {
        group_items(items.drop_last(), g)
    }
}

/// The concatenation of a list of lists.
pub open spec fn concat_all<A>(ss: Seq<Seq<A>>) -> Seq<A>
    decreases ss.len(),
{
    if ss.len() == 0 {
        Seq::empty()
    } else {
        concat_all(ss.drop_last()) + ss.last()
    }
}

/// The items regrouped: the groups in first-seen order, each group's items
/// in the order they were given.
pub open spec fn regrouped(items: Seq<Item>) -> Seq<Item> {
    let gs = distinct_groups(items);
    concat_all(Seq::new(gs.len(), |k: int| group_items(items, gs[k])))
}

proof fn lemma_distinct_groups(items: Seq<Item>)
    ensures
        no_repeats(distinct_groups(items)),
        forall|i: int|
            0 <= i < items.len() ==> distinct_groups(items).contains(
                #[trigger] opt_view(items[i].group),
            ),
    decreases items.len(),
{
    if items.len() > 0 {
        let p = items.drop_last();
        lemma_distinct_groups(p);
        assert forall|i: int| 0 <= i < items.len() implies distinct_groups(items).contains(
            #[trigger] opt_view(items[i].group),
        ) by {
            if i < items.len() - 1 {
                assert(items[i] == p[i]);
                let j = choose|j: int|
                    0 <= j < distinct_groups(p).len() && distinct_groups(p)[j] == opt_view(
                        p[i].group,
                    );
                assert(distinct_groups(items)[j] == opt_view(items[i].group));
            } else {
                let g = distinct_groups(p);
                let x = opt_view(items.last().group);
                if !g.contains(x) {
                    assert(g.push(x)[g.len() as int] == x);
                }
            }
        }
    }
}

/// The groups of `items`, each once, in the order each is first seen.
pub fn distinct_groups_of(items: &Vec<Item>) -> (r: Vec<Option<String>>)
    ensures
        r@.len() == distinct_groups(items@).len(),
        forall|q: int| 0 <= q < r@.len() ==> opt_view(#[trigger] r@[q]) == distinct_groups(items@)[q],
{
    let set = group_set_of(items);
    let n = group_set_len(&set);
    let mut r: Vec<Option<String>> = Vec::new();
    for k in 0..n
        invariant
            n == group_set_contents(set).len(),
            group_set_contents(set) == distinct_groups(items@),
            r@.len() == k,
            forall|q: int| 0 <= q < k ==> opt_view(#[trigger] r@[q]) == group_set_contents(set)[q],
    {
        match group_set_get(&set, k) {
            Some(g) => {
                r.push(g);
            },
            None => {
                assert(false);
            },
        }
    }
    r
}

fn group_set_of(items: &Vec<Item>) -> (s: indexmap::IndexSet<Option<String>>)
    ensures
        group_set_contents(s) == distinct_groups(items@),
{
    let mut set = group_set_new();
    let n = items.len();
    for i in 0..n
        invariant
            n == items@.len(),
            group_set_contents(set) == distinct_groups(items@.take(i as int)),
    {
        assert(items@.take(i + 1).drop_last() == items@.take(i as int));
        let g = crate::item::clone_opt_string(&items[i].group);
        let _ = group_set_insert(&mut set, g);
    }
    assert(items@.take(n as int) == items@);
    set
}

/// Reorders items into display order: groups in first-seen order, items
/// within each group in their relative order, so that slots assigned
/// afterwards follow what is shown.
pub fn reorder_by_group(items: Vec<Item>) -> (r: Vec<Item>)
    ensures
        r@ == regrouped(items@),
{
    let set = group_set_of(&items);
    let ng = group_set_len(&set);
    let ghost gs = group_set_contents(set);
    let ghost orig = items@;
    proof {
        lemma_distinct_groups(orig);
    }
    let mut buckets: Vec<Vec<Item>> = Vec::new();
    for k in 0..ng
        invariant
            buckets@.len() == k,
            forall|q: int| 0 <= q < k ==> (#[trigger] buckets@[q])@.len() == 0,
    {
        buckets.push(Vec::new());
    }
    assert(orig.take(0) == Seq::<Item>::empty());
    for item in it: items
        invariant
            ng == gs.len(),
            gs == group_set_contents(set),
            gs == distinct_groups(orig),
            no_repeats(gs),
            it.seq() == orig,
            forall|i: int| 0 <= i < orig.len() ==> gs.contains(#[trigger] opt_view(orig[i].group)),
            buckets@.len() == ng,
            forall|q: int|
                0 <= q < ng ==> (#[trigger] buckets@[q])@ == group_items(
                    orig.take(it.index() as int),
                    gs[q],
                ),
    {
        let ghost i = it.index() as int;
        assert(orig[i] == item);
        assert(orig.take(i + 1).drop_last() == orig.take(i));
        assert(orig.take(i + 1).last() == item);
        match group_set_index_of(&set, &item.group) {
            Some(k) => {
                let ghost old_buckets = buckets@;
                buckets[k].push(item);
                assert forall|q: int| 0 <= q < ng implies (#[trigger] buckets@[q])@
                    == group_items(orig.take(i + 1), gs[q]) by {
                    if q != k {
                        assert(buckets@[q] == old_buckets[q]);
                        assert(gs[q] != gs[k as int]);
                    }
                }
            },
            None => {
                assert(gs.contains(opt_view(orig[i].group)));
                assert(false);
            },
        }
    }
    assert(orig.take(orig.len() as int) == orig);
    let ghost parts = Seq::new(ng as nat, |q: int| group_items(orig, gs[q]));
    let mut result: Vec<Item> = Vec::new();
    let mut k: usize = 0;
    assert(parts.take(0) == Seq::<Seq<Item>>::empty());
    while buckets.len() > 0
        invariant
            k + buckets@.len() == ng,
            ng == gs.len(),
            parts == Seq::new(ng as nat, |q: int| group_items(orig, gs[q])),
            forall|q: int| 0 <= q < buckets@.len() ==> (#[trigger] buckets@[q])@ == parts[k + q],
            result@ == concat_all(parts.take(k as int)),
        decreases buckets@.len(),
    {
        let ghost old_buckets = buckets@;
        let mut b = buckets.remove(0);
        assert(b@ == parts[k as int]);
        assert(parts.take(k + 1).drop_last() == parts.take(k as int));
        result.append(&mut b);
        assert forall|q: int| 0 <= q < buckets@.len() implies (#[trigger] buckets@[q])@ == parts[k
            + 1 + q] by {
            assert(buckets@[q] == old_buckets[q + 1]);
        }
        k = k + 1;
    }
    assert(parts.take(ng as int) == parts);
    result
}

proof fn lemma_empty_seq_multiset(s: Seq<Item>)
    requires
        s.len() == 0,
    ensures
        s.to_multiset() == Multiset::<Item>::empty(),
{
    vstd::seq_lib::to_multiset_len(s);
    vstd::multiset::lemma_multiset_empty_len(s.to_multiset());
}

/// The per-group parts of `items` for a list of groups.
pub open spec fn group_parts(items: Seq<Item>, gs: Seq<Option<Seq<char>>>) -> Seq<Seq<Item>> {
    Seq::new(gs.len(), |k: int| group_items(items, gs[k]))
}

/// All the items of a list of lists, as a multiset.
pub open spec fn parts_multiset(ss: Seq<Seq<Item>>) -> Multiset<Item>
    decreases ss.len(),
{
    if ss.len() == 0 {
        Multiset::empty()
    } else {
        parts_multiset(ss.drop_last()).add(ss.last().to_multiset())
    }
}

proof fn lemma_concat_multiset(ss: Seq<Seq<Item>>)
    ensures
        concat_all(ss).to_multiset() == parts_multiset(ss),
    decreases ss.len(),
{
    if ss.len() > 0 {
        lemma_concat_multiset(ss.drop_last());
        vstd::seq_lib::lemma_multiset_commutative(concat_all(ss.drop_last()), ss.last());
    } else {
        lemma_empty_seq_multiset(concat_all(ss));
    }
}

proof fn lemma_parts_of_empty(items: Seq<Item>, gs: Seq<Option<Seq<char>>>)
    requires
        items.len() == 0,
    ensures
        parts_multiset(group_parts(items, gs)) == Multiset::<Item>::empty(),
    decreases gs.len(),
{
    if gs.len() > 0 {
        lemma_parts_of_empty(items, gs.drop_last());
        assert(group_parts(items, gs).drop_last() =~= group_parts(items, gs.drop_last()));
        assert(group_items(items, gs.last()) =~= Seq::<Item>::empty());
        lemma_empty_seq_multiset(group_items(items, gs.last()));
        assert(parts_multiset(group_parts(items, gs)) =~= Multiset::<Item>::empty());
    }
}

/// Adding an item whose group is not listed changes no listed part.
proof fn lemma_parts_unlisted(items: Seq<Item>, gs: Seq<Option<Seq<char>>>)
    requires
        items.len() > 0,
        !gs.contains(opt_view(items.last().group)),
    ensures
        parts_multiset(group_parts(items, gs)) == parts_multiset(group_parts(items.drop_last(), gs)),
    decreases gs.len(),
{
    if gs.len() > 0 {
        let gs2 = gs.drop_last();
        assert(!gs2.contains(opt_view(items.last().group))) by {
            if gs2.contains(opt_view(items.last().group)) {
                let j = choose|j: int| 0 <= j < gs2.len() && gs2[j] == opt_view(items.last().group);
                assert(gs[j] == gs2[j]);
            }
        }
        lemma_parts_unlisted(items, gs2);
        assert(group_parts(items, gs).drop_last() =~= group_parts(items, gs2));
        assert(group_parts(items.drop_last(), gs).drop_last() =~= group_parts(items.drop_last(), gs2));
        assert(gs.last() != opt_view(items.last().group)) by {
            assert(gs[gs.len() - 1] == gs.last());
        }
    }
}

/// Adding an item whose group is listed once adds it to exactly one part.
proof fn lemma_parts_step(items: Seq<Item>, gs: Seq<Option<Seq<char>>>)
    requires
        items.len() > 0,
        no_repeats(gs),
        gs.contains(opt_view(items.last().group)),
    ensures
        parts_multiset(group_parts(items, gs)) == parts_multiset(
            group_parts(items.drop_last(), gs),
        ).insert(items.last()),
    decreases gs.len(),
{
    let x = items.last();
    let p = items.drop_last();
    let gs2 = gs.drop_last();
    assert(group_parts(items, gs).drop_last() =~= group_parts(items, gs2));
    assert(group_parts(p, gs).drop_last() =~= group_parts(p, gs2));
    if gs.last() == opt_view(x.group) {
        assert(!gs2.contains(opt_view(x.group))) by {
            if gs2.contains(opt_view(x.group)) {
                let j = choose|j: int| 0 <= j < gs2.len() && gs2[j] == opt_view(x.group);
                assert(gs[j] == gs[gs.len() - 1]);
            }
        }
        lemma_parts_unlisted(items, gs2);
        vstd::seq_lib::to_multiset_build(group_items(p, opt_view(x.group)), x);
        assert(parts_multiset(group_parts(items, gs)) =~= parts_multiset(group_parts(p, gs)).insert(x));
    } else {
        assert(gs2.contains(opt_view(x.group))) by {
            let j = choose|j: int| 0 <= j < gs.len() && gs[j] == opt_view(x.group);
            assert(j != gs.len() - 1);
            assert(gs2[j] == gs[j]);
        }
        assert(no_repeats(gs2)) by {
            assert forall|i: int, j: int| 0 <= i < j < gs2.len() implies gs2[i] != gs2[j] by {
                assert(gs2[i] == gs[i] && gs2[j] == gs[j]);
            }
        }
        lemma_parts_step(items, gs2);
        assert(group_items(items, gs.last()) == group_items(p, gs.last()));
        assert(parts_multiset(group_parts(items, gs)) =~= parts_multiset(group_parts(p, gs)).insert(x));
    }
}

/// Splitting items into listed groups, none listed twice and every item's
/// group listed, loses and adds nothing.
proof fn lemma_parts_cover(items: Seq<Item>, gs: Seq<Option<Seq<char>>>)
    requires
        no_repeats(gs),
        forall|i: int| 0 <= i < items.len() ==> gs.contains(#[trigger] opt_view(items[i].group)),
    ensures
        parts_multiset(group_parts(items, gs)) == items.to_multiset(),
    decreases items.len(),
{
    if items.len() == 0 {
        lemma_parts_of_empty(items, gs);
        lemma_empty_seq_multiset(items);
    } else {
        let p = items.drop_last();
        assert forall|i: int| 0 <= i < p.len() implies gs.contains(#[trigger] opt_view(p[i].group)) by {
            assert(p[i] == items[i]);
            assert(gs.contains(opt_view(items[i].group)));
        }
        lemma_parts_cover(p, gs);
        assert(gs.contains(opt_view(items[items.len() - 1].group)));
        lemma_parts_step(items, gs);
        vstd::seq_lib::to_multiset_build(p, items.last());
        assert(p.push(items.last()) =~= items);
    }
}

/// Regrouping only reorders: the same items, each as often.
pub proof fn lemma_regrouped_permutes(items: Seq<Item>)
    ensures
        regrouped(items).to_multiset() == items.to_multiset(),
        regrouped(items).len() == items.len(),
{
    let gs = distinct_groups(items);
    lemma_distinct_groups(items);
    lemma_concat_multiset(group_parts(items, gs));
    assert(Seq::new(gs.len(), |k: int| group_items(items, gs[k])) =~= group_parts(items, gs));
    lemma_parts_cover(items, gs);
    vstd::seq_lib::to_multiset_len(regrouped(items));
    vstd::seq_lib::to_multiset_len(items);
}

/// Regrouping keeps the number of items.
pub proof fn lemma_regrouped_len(items: Seq<Item>)
    ensures
        regrouped(items).len() == items.len(),
{
    lemma_regrouped_permutes(items);
}

/// Items of one group stand together: between two items of a group there
/// is no item of another.
pub open spec fn is_grouped(s: Seq<Item>) -> bool {
    forall|i: int, j: int, k: int|
        #![trigger s[i], s[j], s[k]]
        0 <= i < j < k < s.len() && opt_view(s[i].group) == opt_view(s[k].group) ==> opt_view(
            s[j].group,
        ) == opt_view(s[i].group)
}

proof fn lemma_group_items_members(items: Seq<Item>, g: Option<Seq<char>>)
    ensures
        forall|x: int|
            0 <= x < group_items(items, g).len() ==> opt_view(
                (#[trigger] group_items(items, g)[x]).group,
            ) == g,
    decreases items.len(),
{
    if items.len() > 0 {
        lemma_group_items_members(items.drop_last(), g);
    }
}

proof fn lemma_group_items_absent(items: Seq<Item>, g: Option<Seq<char>>)
    requires
        forall|i: int| 0 <= i < items.len() ==> opt_view((#[trigger] items[i]).group) != g,
    ensures
        group_items(items, g).len() == 0,
    decreases items.len(),
{
    if items.len() > 0 {
        assert forall|i: int| 0 <= i < items.len() - 1 implies opt_view(
            (#[trigger] items.drop_last()[i]).group,
        ) != g by {
            assert(items.drop_last()[i] == items[i]);
        }
        lemma_group_items_absent(items.drop_last(), g);
        assert(opt_view(items[items.len() - 1].group) != g);
    }
}

proof fn lemma_distinct_groups_seen(items: Seq<Item>, g: Option<Seq<char>>)
    requires
        distinct_groups(items).contains(g),
    ensures
        exists|i: int| 0 <= i < items.len() && opt_view((#[trigger] items[i]).group) == g,
    decreases items.len(),
{
    let p = items.drop_last();
    if distinct_groups(p).contains(g) {
        lemma_distinct_groups_seen(p, g);
        let i = choose|i: int| 0 <= i < p.len() && opt_view((#[trigger] p[i]).group) == g;
        assert(items[i] == p[i]);
    } else {
        assert(opt_view(items[items.len() - 1].group) == g);
    }
}

/// Blocks of one group each, no group twice, stand grouped.
proof fn lemma_concat_grouped(ss: Seq<Seq<Item>>, gs: Seq<Option<Seq<char>>>)
    requires
        ss.len() == gs.len(),
        no_repeats(gs),
        forall|k: int, x: int|
            0 <= k < ss.len() && 0 <= x < ss[k].len() ==> opt_view((#[trigger] ss[k][x]).group)
                == gs[k],
    ensures
        is_grouped(concat_all(ss)),
        forall|i: int|
            0 <= i < concat_all(ss).len() ==> gs.contains(
                opt_view((#[trigger] concat_all(ss)[i]).group),
            ),
    decreases ss.len(),
{
    if ss.len() > 0 {
        let ss2 = ss.drop_last();
        let gs2 = gs.drop_last();
        assert(no_repeats(gs2)) by {
            assert forall|i: int, j: int| 0 <= i < j < gs2.len() implies gs2[i] != gs2[j] by {
                assert(gs2[i] == gs[i] && gs2[j] == gs[j]);
            }
        }
        assert forall|k: int, x: int| 0 <= k < ss2.len() && 0 <= x < ss2[k].len() implies opt_view(
            (#[trigger] ss2[k][x]).group,
        ) == gs2[k] by {
            assert(ss2[k] == ss[k]);
        }
        lemma_concat_grouped(ss2, gs2);
        let a = concat_all(ss2);
        let b = ss.last();
        let gb = gs.last();
        let c = concat_all(ss);
        assert(c == a + b);
        assert forall|i: int| 0 <= i < a.len() implies opt_view((#[trigger] a[i]).group) != gb by {
            assert(gs2.contains(opt_view(a[i].group)));
            let q = choose|q: int| 0 <= q < gs2.len() && gs2[q] == opt_view(a[i].group);
            assert(gs[q] == gs2[q]);
            assert(gs[gs.len() - 1] == gb);
        }
        assert forall|y: int| 0 <= y < b.len() implies opt_view((#[trigger] b[y]).group) == gb by {
            assert(ss[ss.len() - 1][y] == b[y]);
        }
        assert forall|i: int, j: int, k: int|
            #![trigger c[i], c[j], c[k]]
            0 <= i < j < k < c.len() && opt_view(c[i].group) == opt_view(c[k].group) implies opt_view(
                c[j].group,
            ) == opt_view(c[i].group) by {
            if k < a.len() {
                assert(c[i] == a[i] && c[j] == a[j] && c[k] == a[k]);
            } else if i >= a.len() {
                assert(c[i] == b[i - a.len()] && c[j] == b[j - a.len()] && c[k] == b[k - a.len()]);
            } else {
                assert(c[i] == a[i] && c[k] == b[k - a.len()]);
            }
        }
        assert forall|i: int| 0 <= i < c.len() implies gs.contains(opt_view((#[trigger] c[i]).group)) by {
            if i < a.len() {
                assert(c[i] == a[i]);
                assert(gs2.contains(opt_view(a[i].group)));
                let q = choose|q: int| 0 <= q < gs2.len() && gs2[q] == opt_view(a[i].group);
                assert(gs[q] == gs2[q]);
            } else {
                assert(c[i] == b[i - a.len()]);
                assert(gs[gs.len() - 1] == gb);
            }
        }
    }
}

/// Regrouped items stand grouped.
pub proof fn lemma_regrouped_grouped(items: Seq<Item>)
    ensures
        is_grouped(regrouped(items)),
{
    let gs = distinct_groups(items);
    lemma_distinct_groups(items);
    let ss = group_parts(items, gs);
    assert forall|k: int, x: int| 0 <= k < ss.len() && 0 <= x < ss[k].len() implies opt_view(
        (#[trigger] ss[k][x]).group,
    ) == gs[k] by {
        lemma_group_items_members(items, gs[k]);
    }
    lemma_concat_grouped(ss, gs);
    assert(Seq::new(gs.len(), |k: int| group_items(items, gs[k])) =~= ss);
}

/// In grouped items, the last group first seen is the last item's.
proof fn lemma_grouped_last_group(p: Seq<Item>)
    requires
        p.len() > 0,
        is_grouped(p),
    ensures
        distinct_groups(p).last() == opt_view(p.last().group),
        distinct_groups(p).len() > 0,
    decreases p.len(),
{
    let q = p.drop_last();
    let gy = opt_view(p.last().group);
    if distinct_groups(q).contains(gy) {
        lemma_distinct_groups_seen(q, gy);
        let i = choose|i: int| 0 <= i < q.len() && opt_view((#[trigger] q[i]).group) == gy;
        assert(is_grouped(q)) by {
            assert forall|a: int, b: int, c: int|
                #![trigger q[a], q[b], q[c]]
                0 <= a < b < c < q.len() && opt_view(q[a].group) == opt_view(q[c].group) implies opt_view(
                    q[b].group,
                ) == opt_view(q[a].group) by {
                assert(q[a] == p[a] && q[b] == p[b] && q[c] == p[c]);
            }
        }
        lemma_grouped_last_group(q);
        let j = q.len() - 1;
        if i < j {
            assert(p[i] == q[i] && p[j] == q[j]);
            assert(opt_view(p[j].group) == opt_view(p[i].group));
        }
        assert(q.last() == q[j]);
    }
}

proof fn lemma_concat_push_last(ss: Seq<Seq<Item>>, x: Item)
    requires
        ss.len() > 0,
    ensures
        concat_all(ss.update(ss.len() - 1, ss.last().push(x))) == concat_all(ss).push(x),
{
    let t = ss.update(ss.len() - 1, ss.last().push(x));
    assert(t.drop_last() =~= ss.drop_last());
    assert(t.last() == ss.last().push(x));
    assert(concat_all(ss.drop_last()) + ss.last().push(x) =~= (concat_all(ss.drop_last())
        + ss.last()).push(x));
}

/// Grouped items are already in display order: regrouping leaves them as
/// they are.
pub proof fn lemma_grouped_fixed(s: Seq<Item>)
    requires
        is_grouped(s),
    ensures
        regrouped(s) == s,
    decreases s.len(),
{
    if s.len() == 0 {
        assert(regrouped(s) =~= s);
    } else {
        let p = s.drop_last();
        let x = s.last();
        let gx = opt_view(x.group);
        assert(is_grouped(p)) by {
            assert forall|a: int, b: int, c: int|
                #![trigger p[a], p[b], p[c]]
                0 <= a < b < c < p.len() && opt_view(p[a].group) == opt_view(p[c].group) implies opt_view(
                    p[b].group,
                ) == opt_view(p[a].group) by {
                assert(p[a] == s[a] && p[b] == s[b] && p[c] == s[c]);
            }
        }
        lemma_grouped_fixed(p);
        let gsp = distinct_groups(p);
        lemma_distinct_groups(p);
        let bp = group_parts(p, gsp);
        assert(regrouped(p) == concat_all(bp)) by {
            assert(Seq::new(gsp.len(), |k: int| group_items(p, gsp[k])) =~= bp);
        }
        if gsp.contains(gx) {
            lemma_distinct_groups_seen(p, gx);
            let i = choose|i: int| 0 <= i < p.len() && opt_view((#[trigger] p[i]).group) == gx;
            let j = p.len() - 1;
            if i < j {
                assert(s[i] == p[i] && s[j] == p[j] && s[j + 1] == x);
                assert(opt_view(s[j].group) == opt_view(s[i].group));
            }
            assert(p.last() == p[j]);
            lemma_grouped_last_group(p);
            assert(gsp.last() == gx);
            assert(distinct_groups(s) == gsp);
            let bs = group_parts(s, gsp);
            assert forall|k: int| 0 <= k < gsp.len() - 1 implies #[trigger] bs[k] == bp[k] by {
                assert(gsp[k] != gsp[gsp.len() - 1]);
            }
            assert(bs =~= bp.update(bp.len() - 1, bp.last().push(x)));
            lemma_concat_push_last(bp, x);
            assert(regrouped(s) == concat_all(bs)) by {
                assert(Seq::new(gsp.len(), |k: int| group_items(s, gsp[k])) =~= bs);
            }
            assert(p.push(x) =~= s);
        } else {
            let gss = gsp.push(gx);
            assert(distinct_groups(s) == gss);
            let bs = group_parts(s, gss);
            assert forall|i: int| 0 <= i < p.len() implies opt_view((#[trigger] p[i]).group) != gx by {
                assert(gsp.contains(opt_view(p[i].group)));
            }
            lemma_group_items_absent(p, gx);
            assert(bs.drop_last() =~= bp) by {
                assert forall|k: int| 0 <= k < gsp.len() implies #[trigger] bs[k] == bp[k] by {
                    assert(gss[k] == gsp[k]);
                    assert(gsp[k] != gx);
                }
            }
            assert(bs.last() =~= seq![x]);
            assert(regrouped(s) == concat_all(bs)) by {
                assert(Seq::new(gss.len(), |k: int| group_items(s, gss[k])) =~= bs);
            }
            assert(concat_all(bp) + seq![x] =~= p.push(x));
            assert(p.push(x) =~= s);
        }
    }
}

/// The order an index is shown in is its slot order: regrouping a
/// numbered, regrouped listing changes nothing, so slots read 1, 2, 3, ...
/// from top to bottom.
pub proof fn law_display_order_is_slot_order(items: Seq<Item>)
    ensures
        regrouped(crate::item::with_sequential_slots(regrouped(items)))
            == crate::item::with_sequential_slots(regrouped(items)),
{
    let r = regrouped(items);
    let n = crate::item::with_sequential_slots(r);
    lemma_regrouped_grouped(items);
    assert forall|i: int| 0 <= i < n.len() implies (#[trigger] n[i]).group == r[i].group by {}
    assert(is_grouped(n)) by {
        assert forall|a: int, b: int, c: int|
            #![trigger n[a], n[b], n[c]]
            0 <= a < b < c < n.len() && opt_view(n[a].group) == opt_view(n[c].group) implies opt_view(
                n[b].group,
            ) == opt_view(n[a].group) by {
            assert(n[a].group == r[a].group && n[b].group == r[b].group && n[c].group == r[c].group);
        }
    }
    lemma_grouped_fixed(n);
}

} // verus!
