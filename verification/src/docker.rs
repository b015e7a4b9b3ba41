//! Listing containers: one item per container, named by its first name.

use vstd::prelude::*;
use vstd::string::*;

use crate::item::{item_is, opt_view, status_view, Category, Item};
use crate::provider::{flag_set, Context, Provider};
use crate::quoting::{escape_for_shell, shell_escaped};
use crate::text::{chars_of, slice_chars, str_eq, string_of, take_chars};

verus! {

/// What a listing reads of a container.
#[derive(Debug, Clone)]
pub struct ContainerInfo {
    pub names: Option<Vec<String>>,
    pub id: Option<String>,
    pub image: Option<String>,
    pub state: Option<String>,
}

/// `s` without its leading `/`s.
pub open spec fn trim_leading_slashes(s: Seq<char>) -> Seq<char>
    decreases s.len(),
{
    if s.len() > 0 && s[0] == '/' {
        trim_leading_slashes(s.drop_first())
    } else {
        s
    }
}

/// The first 12 characters of `s` (all of it when shorter).
pub open spec fn first12(s: Seq<char>) -> Seq<char> {
    if s.len() <= 12 {
        s
    } else {
        s.take(12)
    }
}

/// A container's name: its first name without leading `/`s, else the first
/// 12 characters of its id, else `unknown`.
pub open spec fn container_name(c: ContainerInfo) -> Seq<char> {
    match c.names {
        Some(ns) if ns@.len() > 0 => trim_leading_slashes(ns@[0]@),
        _ => match c.id {
            Some(id) => first12(id@),
            None => "unknown"@,
        },
    }
}

/// A text option, `unknown` when absent.
pub open spec fn or_unknown(o: Option<String>) -> Seq<char> {
    match o {
        Some(s) => s@,
        None => "unknown"@,
    }
}

/// How a container is shown: `NAME (IMAGE)`.
pub open spec fn container_label(c: ContainerInfo) -> Seq<char> {
    container_name(c) + " ("@ + or_unknown(c.image) + seq![')']
}

/// The category of a container state.
pub open spec fn state_category(state: Seq<char>) -> Category {
    if state == "running"@ {
        Category::Positive
    } else if state == "paused"@ {
        Category::Warning
    } else if state == "exited"@ {
        Category::Neutral
    } else if state == "dead"@ || state == "restarting"@ {
        Category::Negative
    } else {
        Category::Unknown
    }
}

/// The group of a container state: running ones apart from all others.
pub open spec fn state_group(state: Seq<char>) -> Seq<char> {
    if state == "running"@ {
        "running"@
    } else {
        "stopped"@
    }
}

/// `items` list the containers in order: the name is the raw text, the
/// state the status, and running or stopped the group.
pub open spec fn are_container_items(items: Seq<Item>, cs: Seq<ContainerInfo>) -> bool {
    &&& items.len() == cs.len()
    &&& forall|k: int|
        0 <= k < items.len() ==> item_is(
            #[trigger] items[k],
            0,
            container_name(cs[k]),
            container_label(cs[k]),
            Some((or_unknown(cs[k].state), state_category(or_unknown(cs[k].state)))),
            Some(state_group(or_unknown(cs[k].state))),
        )
}

/// `s` without its leading `/`s.
fn trim_slashes(s: &str) -> (r: String)
    ensures
        r@ == trim_leading_slashes(s@),
{
    let v = chars_of(s);
    let n = v.len();
    let mut i: usize = 0;
    assert(v@.skip(0) == v@);
    while i < n && v[i] == '/'
        invariant
            i <= n == v@.len(),
            trim_leading_slashes(v@) == trim_leading_slashes(v@.skip(i as int)),
        decreases n - i,
    {
        assert(v@.skip(i as int).drop_first() == v@.skip(i + 1));
        i = i + 1;
    }
    let rest = slice_chars(&v, i, n);
    assert(v@.subrange(i as int, n as int) == v@.skip(i as int));
    string_of(&rest)
}

/// The name of a container.
pub fn container_name_of(c: &ContainerInfo) -> (r: String)
    ensures
        r@ == container_name(*c),
{
    match &c.names {
        Some(ns) if ns.len() > 0 => trim_slashes(ns[0].as_str()),
        _ => {
            let src = match &c.id {
                Some(id) => chars_of(id.as_str()),
                None => chars_of("unknown"),
            };
            let t = take_chars(&src, 12);
            proof {
                reveal_strlit("unknown");
            }
            string_of(&t)
        },
    }
}

/// The status text, category and group of a container state.
pub fn state_shown(state: &str) -> (r: (Category, &'static str))
    ensures
        r.0 == state_category(state@),
        r.1@ == state_group(state@),
{
    proof {
        reveal_strlit("running");
        reveal_strlit("paused");
        reveal_strlit("exited");
        reveal_strlit("dead");
        reveal_strlit("restarting");
    }
    if str_eq(state, "running") {
        (Category::Positive, "running")
    } else if str_eq(state, "paused") {
        (Category::Warning, "stopped")
    } else if str_eq(state, "exited") {
        (Category::Neutral, "stopped")
    } else if str_eq(state, "dead") || str_eq(state, "restarting") {
        (Category::Negative, "stopped")
    } else {
        (Category::Unknown, "stopped")
    }
}

/// The items for the given containers.
pub fn container_items(cs: &Vec<ContainerInfo>) -> (r: Vec<Item>)
    ensures
        are_container_items(r@, cs@),
{
    let mut items: Vec<Item> = Vec::new();
    let n = cs.len();
    for k in 0..n
        invariant
            n == cs@.len(),
            items@.len() == k,
            forall|j: int|
                0 <= j < k ==> item_is(
                    #[trigger] items@[j],
                    0,
                    container_name(cs@[j]),
                    container_label(cs@[j]),
                    Some((or_unknown(cs@[j].state), state_category(or_unknown(cs@[j].state)))),
                    Some(state_group(or_unknown(cs@[j].state))),
                ),
    {
        let c = &cs[k];
        let name = container_name_of(c);
        let mut label = name.clone();
        label.append(" (");
        match &c.image {
            Some(img) => label.append(img.as_str()),
            None => label.append("unknown"),
        }
        label.push(')');
        let state: &str = match &c.state {
            Some(s) => s.as_str(),
            None => "unknown",
        };
        let shown = state_shown(state);
        let it = Item::new(0, name.as_str(), label.as_str()).with_status(state, shown.0).with_group(
            shown.1,
        );
        assert(label@ == container_label(cs@[k as int]));
        assert(state@ == or_unknown(cs@[k as int].state));
        assert(item_is(it, 0, container_name(cs@[k as int]), container_label(cs@[k as int]),
            Some((or_unknown(cs@[k as int].state), state_category(or_unknown(cs@[k as int].state)))),
            Some(state_group(or_unknown(cs@[k as int].state)))));
        let ghost old_items = items@;
        items.push(it);
        assert(forall|j: int| 0 <= j < k ==> items@[j] == old_items[j]);
    }
    items
}

/// Docker containers.
#[derive(Debug, Clone, Copy)]
pub struct DockerProvider;

impl DockerProvider {
    pub fn new() -> (r: DockerProvider) {
        DockerProvider
    }

    /// Whether stopped containers are listed too: flag `a` or `all`.
    pub fn show_all(ctx: &Context) -> (r: bool)
        ensures
            r == (flag_set(ctx.flags@).contains("a"@) || flag_set(ctx.flags@).contains("all"@)),
    {
        ctx.has_flag("a") || ctx.has_flag("all")
    }
}

/// What the listing asks the Docker daemon for: `(all, running only)`.
/// Without `-a` only running containers are asked for (the `all` option off
/// and a `status=running` filter); with it, every container.
pub fn container_query(show_all: bool) -> (r: (bool, bool))
    ensures
        r == (show_all, !show_all),
{
    (show_all, !show_all)
}

impl Default for DockerProvider {
    fn default() -> (r: DockerProvider) {
        DockerProvider::new()
    }
}

impl Provider for DockerProvider {
    fn name(&self) -> (r: &str)
        ensures
            r@ == "docker"@,
    {
        "docker"
    }

    /// `docker logs --tail 30 NAME`, the name quoted for the shell.
    fn preview_cmd(&self, item: &Item) -> (r: Option<String>)
        ensures
            r matches Some(c) && c@ == "docker logs --tail 30 "@ + shell_escaped(item.raw@),
    {
        let mut c = String::from_str("docker logs --tail 30 ");
        let q = escape_for_shell(item.raw.as_str());
        c.append(q.as_str());
        Some(c)
    }
}

/// A container is grouped `running` exactly when its state is the text
/// `running`; every other state (paused, exited, dead, restarting, an
/// unknown one, or none) is grouped `stopped`, and the state is shown
/// unchanged as the status (`unknown` when there is none).
pub proof fn law_running_group_only_for_running(items: Seq<Item>, cs: Seq<ContainerInfo>)
    requires
        are_container_items(items, cs),
    ensures
        forall|k: int|
            0 <= k < items.len() ==> opt_view((#[trigger] items[k]).group) == (if cs[k].state matches Some(
                st,
            ) && st@ == "running"@ {
                Some("running"@)
            } else {
                Some("stopped"@)
            }),
        forall|k: int|
            0 <= k < items.len() ==> (match status_view((#[trigger] items[k]).status) {
                Some(st) => st.0 == (match cs[k].state {
                    Some(s) => s@,
                    None => "unknown"@,
                }),
                None => false,
            }),
{
    reveal_strlit("running");
    reveal_strlit("unknown");
    assert("unknown"@ != "running"@) by {
        assert("unknown"@[0] != "running"@[0]);
    }
    assert forall|k: int| 0 <= k < items.len() implies opt_view((#[trigger] items[k]).group) == (
    if cs[k].state matches Some(st) && st@ == "running"@ {
        Some("running"@)
    } else {
        Some("stopped"@)
    }) by {
        assert(item_is(
            items[k],
            0,
            container_name(cs[k]),
            container_label(cs[k]),
            Some((or_unknown(cs[k].state), state_category(or_unknown(cs[k].state)))),
            Some(state_group(or_unknown(cs[k].state))),
        ));
    }
}

} // verus!
