//! Listing processes: sorted by pid, kernel threads left out, other users'
//! processes left out unless all are asked for.

use vstd::prelude::*;
use vstd::string::*;

use crate::item::{item_is, Category, Item};
use crate::order::{entry_views, sort_entries, sort_spec, KeyView, SortKey};
use crate::provider::{Context, Provider};
use crate::text::{decimal, decimal_string, ellipsize, ellipsized, join, join_strings, string_views};

verus! {

/// A process's scheduling state, as the system reports it.
#[derive(Debug, Clone, Copy, PartialEq, Eq, Structural)]
pub enum ProcState {
    Run,
    Sleep,
    Idle,
    Zombie,
    Stop,
    Other,
}

/// What a listing reads of a process.
#[derive(Debug, Clone)]
pub struct ProcInfo {
    pub pid: u32,
    pub name: String,
    /// Whether the executable's path is known.
    pub has_exe: bool,
    /// The command line, one argument per entry.
    pub cmd: Vec<String>,
    /// The owner's user id, when known.
    pub user: Option<u32>,
    pub state: ProcState,
}

/// Processes are sorted by pid.
pub open spec fn proc_key(p: ProcInfo) -> KeyView {
    (p.pid as u64, Seq::empty(), Seq::empty())
}

/// The processes keyed for sorting.
pub open spec fn proc_entries(ps: Seq<ProcInfo>) -> Seq<(KeyView, ProcInfo)> {
    ps.map_values(|p: ProcInfo| (proc_key(p), p))
}

/// Whether a process is listed: not a kernel thread (no executable and no
/// command line), and owned by the current user unless all are asked for or
/// the current user is unknown.
pub open spec fn keep_proc(p: ProcInfo, show_all: bool, me: Option<u32>) -> bool {
    &&& !(!p.has_exe && p.cmd@.len() == 0)
    &&& (show_all || me is None || p.user == me)
}

/// The processes of sorted entries that are listed, in order.
pub open spec fn kept_procs(s: Seq<(KeyView, ProcInfo)>, show_all: bool, me: Option<u32>) -> Seq<
    ProcInfo,
>
    decreases s.len(),
{
    if s.len() == 0 {
        Seq::empty()
    } else if keep_proc(s.last().1, show_all, me) {
        kept_procs(s.drop_last(), show_all, me).push(s.last().1)
    } else {
        kept_procs(s.drop_last(), show_all, me)
    }
}

/// The command line: the arguments joined by spaces.
pub open spec fn cmdline(p: ProcInfo) -> Seq<char> {
    join(string_views(p.cmd@), seq![' '])
}

/// How a process is shown: its name, then its command line cut with an
/// ellipsis when there is one.
pub open spec fn proc_label(p: ProcInfo) -> Seq<char> {
    if cmdline(p).len() == 0 {
        p.name@
    } else {
        p.name@ + seq![' '] + ellipsized(cmdline(p))
    }
}

/// The status a process's state is shown as.
pub open spec fn proc_status(s: ProcState) -> (Seq<char>, Category) {
    match s {
        ProcState::Run => ("running"@, Category::Positive),
        ProcState::Sleep | ProcState::Idle => ("sleeping"@, Category::Neutral),
        ProcState::Zombie => ("zombie"@, Category::Negative),
        ProcState::Stop => ("stopped"@, Category::Warning),
        ProcState::Other => ("unknown"@, Category::Unknown),
    }
}

/// `items` list the processes that are kept, by pid, each with its pid as
/// raw text.
pub open spec fn are_proc_items(
    items: Seq<Item>,
    procs: Seq<ProcInfo>,
    show_all: bool,
    me: Option<u32>,
) -> bool {
    let kept = kept_procs(sort_spec(proc_entries(procs)), show_all, me);
    &&& items.len() == kept.len()
    &&& forall|k: int|
        0 <= k < items.len() ==> item_is(
            #[trigger] items[k],
            0,
            decimal(kept[k].pid as nat),
            proc_label(kept[k]),
            Some(proc_status(kept[k].state)),
            None,
        )
}

/// The status text and category of a state.
pub fn proc_status_of(s: ProcState) -> (r: (&'static str, Category))
    ensures
        (r.0@, r.1) == proc_status(s),
{
    match s {
        ProcState::Run => ("running", Category::Positive),
        ProcState::Sleep | ProcState::Idle => ("sleeping", Category::Neutral),
        ProcState::Zombie => ("zombie", Category::Negative),
        ProcState::Stop => ("stopped", Category::Warning),
        ProcState::Other => ("unknown", Category::Unknown),
    }
}

/// The label of a process.
pub fn proc_label_of(p: &ProcInfo) -> (r: String)
    ensures
        r@ == proc_label(*p),
{
    let line = join_strings(p.cmd.as_slice(), " ");
    proof {
        reveal_strlit(" ");
        assert(" "@ =~= seq![' ']);
    }
    assert(line@ == cmdline(*p));
    if line.unicode_len() == 0 {
        p.name.clone()
    } else {
        let mut r = p.name.clone();
        r.append(" ");
        let shown = ellipsize(line.as_str());
        r.append(shown.as_str());
        r
    }
}

/// The items for the given processes: sorted by pid, kernel threads left
/// out, and other users' processes too unless `show_all` (or the current
/// user `me` is unknown).
pub fn proc_items(procs: Vec<ProcInfo>, show_all: bool, me: Option<u32>) -> (r: Vec<Item>)
    ensures
        are_proc_items(r@, procs@, show_all, me),
{
    let ghost orig = procs@;
    let mut rest = procs;
    let mut entries: Vec<(SortKey, ProcInfo)> = Vec::new();
    let n = rest.len();
    assert(orig.skip(0) == orig);
    for i in 0..n
        invariant
            n == orig.len(),
            rest@ == orig.skip(i as int),
            entries@.len() == i,
            entry_views(entries@) == proc_entries(orig.take(i as int)),
    {
        let p = rest.remove(0);
        assert(p == orig[i as int]);
        assert(rest@ =~= orig.skip(i + 1));
        let key = SortKey { num: p.pid as u64, first: Vec::new(), second: Vec::new() };
        let ghost before = entries@;
        entries.push((key, p));
        assert forall|j: int| 0 <= j < i + 1 implies #[trigger] entry_views(entries@)[j]
            == proc_entries(orig.take(i + 1))[j] by {
            if j < i {
                assert(entries@[j] == before[j]);
                assert(entry_views(before)[j] == proc_entries(orig.take(i as int))[j]);
            }
        }
        assert(entry_views(entries@) =~= proc_entries(orig.take(i + 1)));
    }
    assert(orig.take(n as int) =~= orig);
    let sorted = sort_entries(entries);
    let ghost sv = sort_spec(proc_entries(orig));
    let mut items: Vec<Item> = Vec::new();
    let m = sorted.len();
    assert(sv.take(0) =~= Seq::<(KeyView, ProcInfo)>::empty());
    for k in 0..m
        invariant
            m == sorted@.len() == sv.len(),
            entry_views(sorted@) == sv,
            ({
                let kept = kept_procs(sv.take(k as int), show_all, me);
                &&& items@.len() == kept.len()
                &&& forall|j: int|
                    0 <= j < items@.len() ==> item_is(
                        #[trigger] items@[j],
                        0,
                        decimal(kept[j].pid as nat),
                        proc_label(kept[j]),
                        Some(proc_status(kept[j].state)),
                        None,
                    )
            }),
    {
        assert(sv[k as int] == (sorted@[k as int].0@, sorted@[k as int].1));
        assert(sv.take(k + 1).drop_last() =~= sv.take(k as int));
        let p = &sorted[k].1;
        let skip_thread = !p.has_exe && p.cmd.len() == 0;
        let other_user = !show_all && match me {
            Some(u) => match p.user {
                Some(v) => v != u,
                None => true,
            },
            None => false,
        };
        if !skip_thread && !other_user {
            let raw = decimal_string(p.pid as u64);
            let label = proc_label_of(p);
            let st = proc_status_of(p.state);
            let it = Item::new(0, raw.as_str(), label.as_str()).with_status(st.0, st.1);
            let ghost old_items = items@;
            items.push(it);
            assert(forall|j: int| 0 <= j < old_items.len() ==> items@[j] == old_items[j]);
        }
    }
    assert(sv.take(m as int) =~= sv);
    items
}

/// Running processes.
#[derive(Debug, Clone, Copy)]
pub struct SysProvider;

impl SysProvider {
    pub fn new() -> (r: SysProvider) {
        SysProvider
    }

    /// Processes can always be listed.
    pub fn detect(&self, ctx: &Context) -> (r: bool)
        ensures
            r,
    {
        true
    }

    /// Whether every user's processes are listed: flag `a` or `all`.
    pub fn show_all(ctx: &Context) -> (r: bool)
        ensures
            r == (crate::provider::flag_set(ctx.flags@).contains("a"@) || crate::provider::flag_set(
                ctx.flags@,
            ).contains("all"@)),
    {
        ctx.has_flag("a") || ctx.has_flag("all")
    }
}

impl Default for SysProvider {
    fn default() -> (r: SysProvider) {
        SysProvider::new()
    }
}

impl Provider for SysProvider {
    fn name(&self) -> (r: &str)
        ensures
            r@ == "ps"@,
    {
        "ps"
    }

    /// `lsof -p PID`.
    fn preview_cmd(&self, item: &Item) -> (r: Option<String>)
        ensures
            r matches Some(c) && c@ == "lsof -p "@ + item.raw@,
    {
        let mut c = String::from_str("lsof -p ");
        c.append(item.raw.as_str());
        Some(c)
    }
}

} // verus!
