//! Listing ports: listening TCP sockets (and UDP sockets when they were
//! asked for), one item per port and protocol, sorted by port.

use vstd::prelude::*;
use vstd::string::*;

use crate::item::{item_is, Category, Item};
use crate::order::{
    chars_lt, entry_views, key_lt, lemma_sort_permutes, lemma_sort_sorted, sort_entries,
    sort_spec, KeyView, SortKey,
};
use crate::provider::{flag_set, Context, Provider};
use crate::text::{decimal, decimal_string, join, push_decimal};

verus! {

/// What a listing reads of a socket.
#[derive(Debug, Clone)]
pub struct SocketInfo {
    pub port: u16,
    /// TCP when true, UDP otherwise.
    pub tcp: bool,
    /// For TCP: whether the socket is listening.
    pub listening: bool,
    /// The processes that hold the socket.
    pub pids: Vec<u32>,
}

/// The protocol's name.
pub open spec fn proto_of(tcp: bool) -> Seq<char> {
    if tcp {
        "tcp"@
    } else {
        "udp"@
    }
}

/// The state a socket is shown with.
pub open spec fn state_of(tcp: bool) -> Seq<char> {
    if tcp {
        "LISTEN"@
    } else {
        "OPEN"@
    }
}

/// A TCP socket is listed only when listening; a UDP socket always.
pub open spec fn socket_listed(s: SocketInfo) -> bool {
    !(s.tcp && !s.listening)
}

/// Whether a socket with this port and protocol is among `seen`.
pub open spec fn port_seen(seen: Seq<SocketInfo>, s: SocketInfo) -> bool {
    exists|j: int| 0 <= j < seen.len() && #[trigger] seen[j].port == s.port && seen[j].tcp == s.tcp
}

/// The listed sockets, the first of each port and protocol only, in order.
pub open spec fn port_entries(ss: Seq<SocketInfo>) -> Seq<SocketInfo>
    decreases ss.len(),
{
    if ss.len() == 0 {
        Seq::empty()
    } else {
        let prev = port_entries(ss.drop_last());
        let x = ss.last();
        if socket_listed(x) && !port_seen(prev, x) {
            prev.push(x)
        } else {
            prev
        }
    }
}

/// The pids keyed for sorting.
pub open spec fn pid_entries(pids: Seq<u32>) -> Seq<(KeyView, u32)> {
    pids.map_values(|p: u32| ((p as u64, Seq::<char>::empty(), Seq::<char>::empty()), p))
}

/// The pids of sorted entries with runs of equal pids reduced to one.
pub open spec fn dedup_pids(s: Seq<(KeyView, u32)>) -> Seq<u32>
    decreases s.len(),
{
    if s.len() == 0 {
        Seq::empty()
    } else if s.len() > 1 && s[s.len() - 2].1 == s.last().1 {
        dedup_pids(s.drop_last())
    } else {
        dedup_pids(s.drop_last()).push(s.last().1)
    }
}

/// The pids sorted, each once.
pub open spec fn sorted_pids(pids: Seq<u32>) -> Seq<u32> {
    dedup_pids(sort_spec(pid_entries(pids)))
}

/// The pids as decimal text, separated by commas.
pub open spec fn pids_text(pids: Seq<u32>) -> Seq<char> {
    join(pids.map_values(|p: u32| decimal(p as nat)), seq![','])
}

/// How a socket is shown: `:PORT`, then `  (pid P1,P2)` when processes hold
/// it.
pub open spec fn port_label(s: SocketInfo) -> Seq<char> {
    let ps = sorted_pids(s.pids@);
    if ps.len() == 0 {
        seq![':'] + decimal(s.port as nat)
    } else {
        seq![':'] + decimal(s.port as nat) + "  (pid "@ + pids_text(ps) + seq![')']
    }
}

/// Sockets are sorted by port, then protocol name.
pub open spec fn port_key(s: SocketInfo) -> KeyView {
    (s.port as u64, proto_of(s.tcp), Seq::empty())
}

/// Sockets keyed for sorting.
pub open spec fn port_keyed(ss: Seq<SocketInfo>) -> Seq<(KeyView, SocketInfo)> {
    ss.map_values(|s: SocketInfo| (port_key(s), s))
}

/// `items` list the listed sockets, one per port and protocol, sorted by
/// port then protocol; the port is the raw text, the state the status and
/// the protocol the group.
pub open spec fn are_port_items(items: Seq<Item>, sockets: Seq<SocketInfo>) -> bool {
    let sorted = sort_spec(port_keyed(port_entries(sockets)));
    &&& items.len() == sorted.len()
    &&& forall|k: int|
        0 <= k < items.len() ==> item_is(
            #[trigger] items[k],
            0,
            decimal(sorted[k].1.port as nat),
            port_label(sorted[k].1),
            Some((state_of(sorted[k].1.tcp), Category::Positive)),
            Some(proto_of(sorted[k].1.tcp)),
        )
}

/// The pids sorted, each once.
pub fn sort_pids(pids: &Vec<u32>) -> (r: Vec<u32>)
    ensures
        r@ == sorted_pids(pids@),
{
    let mut entries: Vec<(SortKey, u32)> = Vec::new();
    let n = pids.len();
    for i in 0..n
        invariant
            n == pids@.len(),
            entries@.len() == i,
            entry_views(entries@) == pid_entries(pids@.take(i as int)),
    {
        let key = SortKey { num: pids[i] as u64, first: Vec::new(), second: Vec::new() };
        let ghost before = entries@;
        entries.push((key, pids[i]));
        assert forall|j: int| 0 <= j < i + 1 implies #[trigger] entry_views(entries@)[j]
            == pid_entries(pids@.take(i + 1))[j] by {
            if j < i {
                assert(entries@[j] == before[j]);
                assert(entry_views(before)[j] == pid_entries(pids@.take(i as int))[j]);
            }
        }
        assert(entry_views(entries@) =~= pid_entries(pids@.take(i + 1)));
    }
    assert(pids@.take(n as int) =~= pids@);
    let sorted = sort_entries(entries);
    let ghost sv = sort_spec(pid_entries(pids@));
    let mut r: Vec<u32> = Vec::new();
    let m = sorted.len();
    assert(sv.take(0) =~= Seq::<(KeyView, u32)>::empty());
    for k in 0..m
        invariant
            m == sorted@.len() == sv.len(),
            entry_views(sorted@) == sv,
            r@ == dedup_pids(sv.take(k as int)),
    {
        assert(sv.take(k + 1).drop_last() =~= sv.take(k as int));
        assert(sv[k as int] == (sorted@[k as int].0@, sorted@[k as int].1));
        if k > 0 {
            assert(sv[k - 1] == (sorted@[k - 1].0@, sorted@[k - 1].1));
        }
        if k == 0 || sorted[k - 1].1 != sorted[k].1 {
            r.push(sorted[k].1);
        }
    }
    assert(sv.take(m as int) =~= sv);
    r
}

/// The label of a socket.
pub fn port_label_of(s: &SocketInfo) -> (r: String)
    ensures
        r@ == port_label(*s),
{
    let ps = sort_pids(&s.pids);
    let mut r = String::new();
    r.push(':');
    push_decimal(&mut r, s.port as u64);
    if ps.len() > 0 {
        r.append("  (pid ");
        let ghost start = r@;
        let ghost dec = ps@.map_values(|p: u32| decimal(p as nat));
        assert(dec.take(0) =~= Seq::<Seq<char>>::empty());
        let n = ps.len();
        for i in 0..n
            invariant
                n == ps@.len(),
                dec == ps@.map_values(|p: u32| decimal(p as nat)),
                r@ == start + join(dec.take(i as int), seq![',']),
        {
            assert(dec.take(i + 1).drop_last() =~= dec.take(i as int));
            assert(dec[i as int] == decimal(ps@[i as int] as nat));
            if i > 0 {
                r.push(',');
            }
            push_decimal(&mut r, ps[i] as u64);
        }
        assert(dec.take(n as int) =~= dec);
        r.push(')');
    }
    r
}

/// The items for the given sockets.
pub fn port_items(sockets: Vec<SocketInfo>) -> (r: Vec<Item>)
    ensures
        are_port_items(r@, sockets@),
{
    let ghost orig = sockets@;
    let mut rest = sockets;
    let mut kept: Vec<SocketInfo> = Vec::new();
    let n = rest.len();
    assert(orig.skip(0) == orig);
    for i in 0..n
        invariant
            n == orig.len(),
            rest@ == orig.skip(i as int),
            kept@ == port_entries(orig.take(i as int)),
    {
        let s = rest.remove(0);
        assert(s == orig[i as int]);
        assert(rest@ =~= orig.skip(i + 1));
        assert(orig.take(i + 1).drop_last() =~= orig.take(i as int));
        let listed = !(s.tcp && !s.listening);
        let mut seen = false;
        let kn = kept.len();
        for j in 0..kn
            invariant
                kn == kept@.len(),
                seen <==> exists|q: int|
                    0 <= q < j && #[trigger] kept@[q].port == s.port && kept@[q].tcp == s.tcp,
        {
            if kept[j].port == s.port && kept[j].tcp == s.tcp {
                seen = true;
            }
        }
        if listed && !seen {
            kept.push(s);
        }
    }
    assert(orig.take(n as int) =~= orig);
    let ghost ks = kept@;
    let mut entries: Vec<(SortKey, SocketInfo)> = Vec::new();
    let mut rest2 = kept;
    let n2 = rest2.len();
    assert(ks.skip(0) == ks);
    for i in 0..n2
        invariant
            n2 == ks.len(),
            rest2@ == ks.skip(i as int),
            entries@.len() == i,
            entry_views(entries@) == port_keyed(ks.take(i as int)),
    {
        let s = rest2.remove(0);
        assert(s == ks[i as int]);
        assert(rest2@ =~= ks.skip(i + 1));
        let proto: Vec<char> = if s.tcp {
            vec!['t', 'c', 'p']
        } else {
            vec!['u', 'd', 'p']
        };
        proof {
            reveal_strlit("tcp");
            reveal_strlit("udp");
        }
        assert(proto@ =~= proto_of(s.tcp));
        let key = SortKey { num: s.port as u64, first: proto, second: Vec::new() };
        let ghost before = entries@;
        entries.push((key, s));
        assert forall|j: int| 0 <= j < i + 1 implies #[trigger] entry_views(entries@)[j]
            == port_keyed(ks.take(i + 1))[j] by {
            if j < i {
                assert(entries@[j] == before[j]);
                assert(entry_views(before)[j] == port_keyed(ks.take(i as int))[j]);
            }
        }
        assert(entry_views(entries@) =~= port_keyed(ks.take(i + 1)));
    }
    assert(ks.take(n2 as int) =~= ks);
    let sorted = sort_entries(entries);
    let ghost sv = sort_spec(port_keyed(ks));
    let mut items: Vec<Item> = Vec::new();
    let m = sorted.len();
    for k in 0..m
        invariant
            m == sorted@.len() == sv.len(),
            entry_views(sorted@) == sv,
            items@.len() == k,
            forall|j: int|
                0 <= j < k ==> item_is(
                    #[trigger] items@[j],
                    0,
                    decimal(sv[j].1.port as nat),
                    port_label(sv[j].1),
                    Some((state_of(sv[j].1.tcp), Category::Positive)),
                    Some(proto_of(sv[j].1.tcp)),
                ),
    {
        assert(sv[k as int] == (sorted@[k as int].0@, sorted@[k as int].1));
        let s = &sorted[k].1;
        let raw = decimal_string(s.port as u64);
        let label = port_label_of(s);
        let (state, proto) = if s.tcp {
            ("LISTEN", "tcp")
        } else {
            ("OPEN", "udp")
        };
        let it = Item::new(0, raw.as_str(), label.as_str()).with_status(
            state,
            Category::Positive,
        ).with_group(proto);
        let ghost old_items = items@;
        items.push(it);
        assert(forall|j: int| 0 <= j < k ==> items@[j] == old_items[j]);
    }
    items
}

/// Open ports.
#[derive(Debug, Clone, Copy)]
pub struct PortProvider;

impl PortProvider {
    pub fn new() -> (r: PortProvider) {
        PortProvider
    }

    /// Ports can always be listed.
    pub fn detect(&self, ctx: &Context) -> (r: bool)
        ensures
            r,
    {
        true
    }

    /// Whether UDP sockets are listed too: flag `a` or `all`.
    pub fn show_all(ctx: &Context) -> (r: bool)
        ensures
            r == (flag_set(ctx.flags@).contains("a"@) || flag_set(ctx.flags@).contains("all"@)),
    {
        ctx.has_flag("a") || ctx.has_flag("all")
    }
}

/// Which sockets the listing reads: `(tcp, udp)`. TCP always; UDP only
/// with `-a`.
pub fn socket_protocols(show_all: bool) -> (r: (bool, bool))
    ensures
        r == (true, show_all),
{
    (true, show_all)
}

impl Default for PortProvider {
    fn default() -> (r: PortProvider) {
        PortProvider::new()
    }
}

impl Provider for PortProvider {
    fn name(&self) -> (r: &str)
        ensures
            r@ == "port"@,
    {
        "port"
    }

    /// `lsof -i :PORT`.
    fn preview_cmd(&self, item: &Item) -> (r: Option<String>)
        ensures
            r matches Some(c) && c@ == "lsof -i :"@ + item.raw@,
    {
        let mut c = String::from_str("lsof -i :");
        c.append(item.raw.as_str());
        Some(c)
    }
}

/// A port and protocol is listed at most once.
pub proof fn law_ports_listed_once(sockets: Seq<SocketInfo>)
    ensures
        forall|i: int, j: int|
            0 <= i < j < port_entries(sockets).len() ==> !(#[trigger] port_entries(sockets)[i].port
                == #[trigger] port_entries(sockets)[j].port && port_entries(sockets)[i].tcp
                == port_entries(sockets)[j].tcp),
    decreases sockets.len(),
{
    if sockets.len() > 0 {
        let prev = port_entries(sockets.drop_last());
        law_ports_listed_once(sockets.drop_last());
        let x = sockets.last();
        let cur = port_entries(sockets);
        if socket_listed(x) && !port_seen(prev, x) {
            assert forall|i: int, j: int| 0 <= i < j < cur.len() implies !(#[trigger] cur[i].port
                == #[trigger] cur[j].port && cur[i].tcp == cur[j].tcp) by {
                if j == cur.len() - 1 {
                    assert(cur[i] == prev[i]);
                    assert(cur[j] == x);
                    if cur[i].port == cur[j].port && cur[i].tcp == cur[j].tcp {
                        assert(prev[i].port == x.port && prev[i].tcp == x.tcp);
                        assert(port_seen(prev, x));
                    }
                } else {
                    assert(cur[i] == prev[i] && cur[j] == prev[j]);
                }
            }
        }
    }
}

/// Every sorted pid entry carries its own pid as key.
proof fn lemma_pid_keys(pids: Seq<u32>)
    ensures
        forall|k: int|
            0 <= k < sort_spec(pid_entries(pids)).len() ==> (#[trigger] sort_spec(
                pid_entries(pids),
            )[k]).0 == (sort_spec(pid_entries(pids))[k].1 as u64, Seq::<char>::empty(), Seq::<
                char,
            >::empty()),
        forall|p: u32|
            (exists|k: int|
                0 <= k < sort_spec(pid_entries(pids)).len() && #[trigger] sort_spec(
                    pid_entries(pids),
                )[k].1 == p) <==> pids.contains(p),
{
    let e = pid_entries(pids);
    let s = sort_spec(e);
    lemma_sort_permutes(e);
    assert forall|k: int| 0 <= k < s.len() implies (#[trigger] s[k]).0 == (
        s[k].1 as u64,
        Seq::<char>::empty(),
        Seq::<char>::empty(),
    ) by {
        vstd::seq_lib::to_multiset_contains(s, s[k]);
        vstd::seq_lib::to_multiset_contains(e, s[k]);
        assert(s.contains(s[k]));
        let i = choose|i: int| 0 <= i < e.len() && e[i] == s[k];
        assert(e[i] == ((pids[i] as u64, Seq::<char>::empty(), Seq::<char>::empty()), pids[i]));
    }
    assert forall|p: u32|
        (exists|k: int| 0 <= k < s.len() && #[trigger] s[k].1 == p) <==> pids.contains(p) by {
        if exists|k: int| 0 <= k < s.len() && #[trigger] s[k].1 == p {
            let k = choose|k: int| 0 <= k < s.len() && #[trigger] s[k].1 == p;
            vstd::seq_lib::to_multiset_contains(s, s[k]);
            vstd::seq_lib::to_multiset_contains(e, s[k]);
            assert(s.contains(s[k]));
            let i = choose|i: int| 0 <= i < e.len() && e[i] == s[k];
            assert(e[i].1 == pids[i]);
        }
        if pids.contains(p) {
            let i = choose|i: int| 0 <= i < pids.len() && pids[i] == p;
            let x = e[i];
            assert(e.contains(x));
            vstd::seq_lib::to_multiset_contains(e, x);
            vstd::seq_lib::to_multiset_contains(s, x);
            let k = choose|k: int| 0 <= k < s.len() && s[k] == x;
            assert(s[k].1 == p);
        }
    }
}

/// Deduplicating a non-decreasing run of pids gives them increasing, each
/// once, ending with the last one.
proof fn lemma_dedup_increasing(s: Seq<(KeyView, u32)>)
    requires
        forall|i: int, j: int| 0 <= i < j < s.len() ==> #[trigger] s[i].1 <= #[trigger] s[j].1,
    ensures
        forall|i: int, j: int|
            0 <= i < j < dedup_pids(s).len() ==> #[trigger] dedup_pids(s)[i] < #[trigger] dedup_pids(
                s,
            )[j],
        s.len() > 0 ==> dedup_pids(s).len() > 0 && dedup_pids(s).last() == s.last().1,
        forall|p: u32|
            dedup_pids(s).contains(p) <==> (exists|k: int| 0 <= k < s.len() && #[trigger] s[k].1 == p),
    decreases s.len(),
{
    if s.len() > 0 {
        let t = s.drop_last();
        assert forall|i: int, j: int| 0 <= i < j < t.len() implies #[trigger] t[i].1 <= #[trigger] t[j].1 by {
            assert(t[i] == s[i] && t[j] == s[j]);
        }
        lemma_dedup_increasing(t);
        let r = dedup_pids(t);
        let x = s.last().1;
        if s.len() > 1 && s[s.len() - 2].1 == x {
            assert(t.last() == s[s.len() - 2]);
            assert forall|p: u32| dedup_pids(s).contains(p) <==> (exists|k: int|
                0 <= k < s.len() && #[trigger] s[k].1 == p) by {
                if exists|k: int| 0 <= k < s.len() && #[trigger] s[k].1 == p {
                    let k = choose|k: int| 0 <= k < s.len() && #[trigger] s[k].1 == p;
                    if k == s.len() - 1 {
                        assert(t[s.len() - 2].1 == p);
                    } else {
                        assert(t[k].1 == p);
                    }
                }
                if dedup_pids(s).contains(p) {
                    let k = choose|k: int| 0 <= k < t.len() && #[trigger] t[k].1 == p;
                    assert(s[k].1 == p);
                }
            }
        } else {
            if s.len() > 1 {
                assert(t.last() == s[s.len() - 2]);
                assert(s[s.len() - 2].1 <= x);
                assert(r.last() < x);
            }
            let d = r.push(x);
            assert forall|i: int, j: int| 0 <= i < j < d.len() implies #[trigger] d[i] < #[trigger] d[j] by {
                if j == d.len() - 1 {
                    if i < r.len() - 1 {
                        assert(r[i] < r[r.len() - 1]);
                    }
                } else {
                    assert(d[i] == r[i] && d[j] == r[j]);
                }
            }
            assert forall|p: u32| d.contains(p) <==> (exists|k: int|
                0 <= k < s.len() && #[trigger] s[k].1 == p) by {
                if exists|k: int| 0 <= k < s.len() && #[trigger] s[k].1 == p {
                    let k = choose|k: int| 0 <= k < s.len() && #[trigger] s[k].1 == p;
                    if k == s.len() - 1 {
                        assert(d[d.len() - 1] == p);
                    } else {
                        assert(t[k].1 == p);
                        assert(r.contains(p));
                        let q = choose|q: int| 0 <= q < r.len() && r[q] == p;
                        assert(d[q] == p);
                    }
                }
                if d.contains(p) {
                    let q = choose|q: int| 0 <= q < d.len() && d[q] == p;
                    if q < r.len() {
                        assert(r[q] == p);
                        assert(r.contains(p));
                        let k = choose|k: int| 0 <= k < t.len() && #[trigger] t[k].1 == p;
                        assert(s[k].1 == p);
                    } else {
                        assert(s[s.len() - 1].1 == p);
                    }
                }
            }
        }
    }
}

/// The pids a socket is shown with are increasing, each once, and exactly
/// the pids that hold it.
pub proof fn law_pids_increasing(pids: Seq<u32>)
    ensures
        forall|i: int, j: int|
            0 <= i < j < sorted_pids(pids).len() ==> #[trigger] sorted_pids(pids)[i]
                < #[trigger] sorted_pids(pids)[j],
        forall|p: u32| sorted_pids(pids).contains(p) <==> pids.contains(p),
{
    let s = sort_spec(pid_entries(pids));
    lemma_sort_sorted(pid_entries(pids));
    lemma_pid_keys(pids);
    assert forall|i: int, j: int| 0 <= i < j < s.len() implies #[trigger] s[i].1 <= #[trigger] s[j].1 by {
        assert(!key_lt(s[j].0, s[i].0));
    }
    lemma_dedup_increasing(s);
}

/// Every sorted socket entry carries its own key, and is one of the listed
/// sockets.
proof fn lemma_port_keys(sockets: Seq<SocketInfo>)
    ensures
        forall|k: int|
            0 <= k < sort_spec(port_keyed(port_entries(sockets))).len() ==> (#[trigger] sort_spec(
                port_keyed(port_entries(sockets)),
            )[k]).0 == port_key(sort_spec(port_keyed(port_entries(sockets)))[k].1)
                && port_entries(sockets).contains(sort_spec(port_keyed(port_entries(sockets)))[k].1),
{
    let e = port_keyed(port_entries(sockets));
    let s = sort_spec(e);
    lemma_sort_permutes(e);
    assert forall|k: int| 0 <= k < s.len() implies (#[trigger] s[k]).0 == port_key(s[k].1)
        && port_entries(sockets).contains(s[k].1) by {
        vstd::seq_lib::to_multiset_contains(s, s[k]);
        vstd::seq_lib::to_multiset_contains(e, s[k]);
        assert(s.contains(s[k]));
        let i = choose|i: int| 0 <= i < e.len() && e[i] == s[k];
        assert(e[i] == (port_key(port_entries(sockets)[i]), port_entries(sockets)[i]));
        assert(port_entries(sockets)[i] == s[k].1);
    }
}

/// Ports are listed in increasing numeric order (80 before 443), and of
/// a TCP and a UDP socket on the same port the TCP one comes first: the
/// items show, in order, listed sockets whose port numbers never decrease.
pub proof fn law_ports_sorted_by_number(items: Seq<Item>, sockets: Seq<SocketInfo>)
    requires
        are_port_items(items, sockets),
    ensures
        exists|ps: Seq<SocketInfo>|
            #![trigger ps.len()]
            {
                &&& ps.len() == items.len()
                &&& forall|k: int|
                    0 <= k < ps.len() ==> (#[trigger] items[k]).raw@ == decimal(ps[k].port as nat)
                        && port_entries(sockets).contains(ps[k])
                &&& forall|i: int, j: int|
                    0 <= i < j < ps.len() ==> (#[trigger] ps[i]).port <= (#[trigger] ps[j]).port && (
                    ps[i].port == ps[j].port ==> ps[i].tcp || !ps[j].tcp)
                &&& ps.len() == port_entries(sockets).len()
                &&& forall|i: int|
                    0 <= i < port_entries(sockets).len() ==> ps.contains(
                        #[trigger] port_entries(sockets)[i],
                    )
            },
{
    reveal_strlit("tcp");
    reveal_strlit("udp");
    let e = port_keyed(port_entries(sockets));
    let s = sort_spec(e);
    lemma_sort_sorted(e);
    lemma_port_keys(sockets);
    let ps = s.map_values(|x: (KeyView, SocketInfo)| x.1);
    assert(chars_lt("tcp"@, "udp"@));
    assert forall|i: int, j: int| 0 <= i < j < ps.len() implies (#[trigger] ps[i]).port <= (
    #[trigger] ps[j]).port && (ps[i].port == ps[j].port ==> ps[i].tcp || !ps[j].tcp) by {
        assert(!key_lt(s[j].0, s[i].0));
        assert(s[i].0 == port_key(s[i].1) && s[j].0 == port_key(s[j].1));
        assert(ps[i] == s[i].1 && ps[j] == s[j].1);
    }
    assert forall|k: int| 0 <= k < ps.len() implies (#[trigger] items[k]).raw@ == decimal(
        ps[k].port as nat,
    ) && port_entries(sockets).contains(ps[k]) by {
        assert(ps[k] == s[k].1);
    }
    lemma_sort_permutes(e);
    assert forall|i: int| 0 <= i < port_entries(sockets).len() implies ps.contains(
        #[trigger] port_entries(sockets)[i],
    ) by {
        assert(e[i] == (port_key(port_entries(sockets)[i]), port_entries(sockets)[i]));
        assert(e.contains(e[i]));
        vstd::seq_lib::to_multiset_contains(e, e[i]);
        vstd::seq_lib::to_multiset_contains(s, e[i]);
        let k = choose|k: int| 0 <= k < s.len() && s[k] == e[i];
        assert(ps[k] == port_entries(sockets)[i]);
    }
}

} // verus!
