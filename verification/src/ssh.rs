//! SSH hosts from an OpenSSH client configuration file.

use vstd::prelude::*;
use vstd::string::*;

use crate::index::{path_push, push_path};
use crate::item::{has_shapes, lemma_has_shapes_push, opt_view, shape, Category, Item, ItemShape};
use crate::provider::{Provider};
use crate::text::{
    chars_of, is_whitespace, is_ws, slice_chars, split_chars, split_on, split_ws, split_ws_chars,
    string_of, trim, trim_chars, views,
};

verus! {

/// One `Host` entry: its first plain alias and the settings read for it.
#[derive(Debug, Clone)]
pub struct SshHost {
    pub alias: String,
    pub hostname: Option<String>,
    pub user: Option<String>,
    pub port: Option<String>,
}

/// A host entry over character sequences.
pub struct HostView {
    pub alias: Seq<char>,
    pub hostname: Option<Seq<char>>,
    pub user: Option<Seq<char>>,
    pub port: Option<Seq<char>>,
}

pub open spec fn host_view(h: SshHost) -> HostView {
    HostView {
        alias: h.alias@,
        hostname: opt_view(h.hostname),
        user: opt_view(h.user),
        port: opt_view(h.port),
    }
}

pub open spec fn host_views(hs: Seq<SshHost>) -> Seq<HostView> {
    hs.map_values(|h: SshHost| host_view(h))
}

pub open spec fn opt_host_view(h: Option<SshHost>) -> Option<HostView> {
    match h {
        Some(h) => Some(host_view(h)),
        None => None,
    }
}

/// `c` is an ASCII lowercase letter and `k` is it or its uppercase form.
pub open spec fn ascii_ieq_char(k: char, w: char) -> bool {
    k == w || (97 <= (w as u32) <= 122 && (k as u32) == (w as u32) - 32)
}

/// `k.to_lowercase() == w` for a word `w` of ASCII lowercase letters among
/// which there is neither `k` nor `i` (the only letters that non-ASCII
/// characters lowercase to): the same length, and each character the
/// letter or its uppercase form.
pub open spec fn ascii_ieq(k: Seq<char>, w: Seq<char>) -> bool {
    k.len() == w.len() && forall|i: int| 0 <= i < k.len() ==> ascii_ieq_char(k[i], w[i])
}

fn ieq_word(k: &[char], w: &str) -> (r: bool)
    ensures
        r == ascii_ieq(k@, w@),
{
    let wv = chars_of(w);
    if k.len() != wv.len() {
        return false;
    }
    let n = k.len();
    for i in 0..n
        invariant
            n == k@.len() == wv@.len(),
            wv@ == w@,
            forall|j: int| 0 <= j < i ==> ascii_ieq_char(k@[j], wv@[j]),
    {
        let a = k[i] as u32;
        let b = wv[i] as u32;
        if !(k[i] == wv[i] || (97 <= b && b <= 122 && a == b - 32)) {
            assert(!ascii_ieq_char(k@[i as int], wv@[i as int]));
            return false;
        }
    }
    true
}

/// The separator of a configuration line: whitespace or `=`.
pub open spec fn is_kv_sep(c: char) -> bool {
    is_ws(c) || c == '='
}

/// The index of the first separator of `s`.
pub open spec fn first_sep(s: Seq<char>) -> Option<int>
    decreases s.len(),
{
    if s.len() == 0 {
        None
    } else if is_kv_sep(s[0]) {
        Some(0)
    } else {
        match first_sep(s.drop_first()) {
            Some(i) => Some(i + 1),
            None => None,
        }
    }
}

/// A line split at its first separator, both sides trimmed.
pub open spec fn key_value(line: Seq<char>) -> Option<(Seq<char>, Seq<char>)> {
    match first_sep(line) {
        Some(i) => Some((trim(line.take(i)), trim(line.skip(i + 1)))),
        None => None,
    }
}

proof fn lemma_first_sep_found(s: Seq<char>, i: int)
    requires
        0 <= i < s.len(),
        is_kv_sep(s[i]),
        forall|j: int| 0 <= j < i ==> !is_kv_sep(s[j]),
    ensures
        first_sep(s) == Some(i),
    decreases s.len(),
{
    if i > 0 {
        assert forall|j: int| 0 <= j < i - 1 implies !is_kv_sep(s.drop_first()[j]) by {
            assert(s.drop_first()[j] == s[j + 1]);
        }
        lemma_first_sep_found(s.drop_first(), i - 1);
    }
}

proof fn lemma_first_sep_none(s: Seq<char>)
    requires
        forall|j: int| 0 <= j < s.len() ==> !is_kv_sep(s[j]),
    ensures
        first_sep(s) is None,
    decreases s.len(),
{
    if s.len() > 0 {
        assert forall|j: int| 0 <= j < s.len() - 1 implies !is_kv_sep(s.drop_first()[j]) by {
            assert(s.drop_first()[j] == s[j + 1]);
        }
        lemma_first_sep_none(s.drop_first());
    }
}

fn split_key_value(line: &[char]) -> (r: Option<(Vec<char>, Vec<char>)>)
    ensures
        r matches Some((k, v)) ==> key_value(line@) == Some((k@, v@)),
        r is None ==> key_value(line@) is None,
{
    let n = line.len();
    for i in 0..n
        invariant
            n == line@.len(),
            forall|j: int| 0 <= j < i ==> !is_kv_sep(line@[j]),
    {
        if is_whitespace(line[i]) || line[i] == '=' {
            proof {
                lemma_first_sep_found(line@, i as int);
            }
            let k = trim_chars(&slice_chars(line, 0, i));
            let v = trim_chars(&slice_chars(line, i + 1, n));
            assert(line@.take(i as int) == line@.subrange(0, i as int));
            assert(line@.skip(i + 1) == line@.subrange(i + 1, n as int));
            return Some((k, v));
        }
    }
    proof {
        lemma_first_sep_none(line@);
    }
    None
}

/// A word with no wildcard (`*` or `?`).
pub open spec fn is_plain(w: Seq<char>) -> bool {
    !w.contains('*') && !w.contains('?')
}

/// The first non-empty piece without wildcards: what `split_whitespace`
/// followed by a search for a plain alias finds.
pub open spec fn first_plain(pieces: Seq<Seq<char>>) -> Option<Seq<char>>
    decreases pieces.len(),
{
    if pieces.len() == 0 {
        None
    } else if pieces[0].len() > 0 && is_plain(pieces[0]) {
        Some(pieces[0])
    } else {
        first_plain(pieces.drop_first())
    }
}

fn has_wildcard(w: &[char]) -> (r: bool)
    ensures
        r == !is_plain(w@),
{
    let n = w.len();
    for i in 0..n
        invariant
            n == w@.len(),
            forall|j: int| 0 <= j < i ==> w@[j] != '*' && w@[j] != '?',
    {
        if w[i] == '*' || w[i] == '?' {
            assert(w@[i as int] == w[i as int]);
            return true;
        }
    }
    assert(!w@.contains('*'));
    assert(!w@.contains('?'));
    false
}

fn first_plain_alias(v: &[char]) -> (r: Option<Vec<char>>)
    ensures
        r matches Some(a) ==> first_plain(split_ws(v@)) == Some(a@),
        r is None ==> first_plain(split_ws(v@)) is None,
{
    let pieces = split_ws_chars(v);
    let n = pieces.len();
    let ghost p = views(pieces@);
    assert(p.skip(0) == p);
    for j in 0..n
        invariant
            n == pieces@.len(),
            p == views(pieces@),
            p == split_ws(v@),
            first_plain(p) == first_plain(p.skip(j as int)),
    {
        assert(p.skip(j as int)[0] == pieces@[j as int]@);
        assert(p.skip(j as int).drop_first() == p.skip(j + 1));
        if pieces[j].len() > 0 && !has_wildcard(&pieces[j]) {
            let a = slice_chars(&pieces[j], 0, pieces[j].len());
            assert(pieces@[j as int]@.subrange(0, pieces@[j as int]@.len() as int) == pieces@[j as int]@);
            return Some(a);
        }
    }
    assert(p.skip(n as int).len() == 0);
    None
}

/// What reading one line does: (hosts finished so far, host being read).
pub open spec fn ssh_step(
    st: (Seq<HostView>, Option<HostView>),
    raw: Seq<char>,
) -> (Seq<HostView>, Option<HostView>) {
    let line = trim(raw);
    if line.len() == 0 || line[0] == '#' {
        st
    } else {
        match key_value(line) {
            None => st,
            Some((k, v)) => if ascii_ieq(k, "host"@) {
                let hosts = match st.1 {
                    Some(h) => st.0.push(h),
                    None => st.0,
                };
                let cur = match first_plain(split_ws(v)) {
                    Some(a) => Some(HostView { alias: a, hostname: None, user: None, port: None }),
                    None => None,
                };
                (hosts, cur)
            } else if ascii_ieq(k, "match"@) {
                let hosts = match st.1 {
                    Some(h) => st.0.push(h),
                    None => st.0,
                };
                (hosts, None)
            } else if ascii_ieq(k, "hostname"@) {
                (
                    st.0,
                    match st.1 {
                        Some(h) => Some(HostView { hostname: Some(v), ..h }),
                        None => None,
                    },
                )
            } else if ascii_ieq(k, "user"@) {
                (
                    st.0,
                    match st.1 {
                        Some(h) => Some(HostView { user: Some(v), ..h }),
                        None => None,
                    },
                )
            } else if ascii_ieq(k, "port"@) {
                (
                    st.0,
                    match st.1 {
                        Some(h) => Some(HostView { port: Some(v), ..h }),
                        None => None,
                    },
                )
            } else {
                st
            },
        }
    }
}

/// A `Match` line closes the entry being read, and until the next `Host`
/// line a setting (any other key) belongs to no entry and changes nothing.
pub proof fn law_match_block_skipped(
    hosts: Seq<HostView>,
    cur: Option<HostView>,
    match_line: Seq<char>,
    setting: Seq<char>,
)
    requires
        trim(match_line).len() > 0 && trim(match_line)[0] != '#',
        key_value(trim(match_line)) matches Some((k, v)) && ascii_ieq(k, "match"@),
        key_value(trim(setting)) matches Some((k, v)) && !ascii_ieq(k, "host"@) && !ascii_ieq(
            k,
            "match"@,
        ),
    ensures
        ssh_step((hosts, cur), match_line).1 is None,
        ssh_step(ssh_step((hosts, cur), match_line), setting) == ssh_step((hosts, cur), match_line),
{
    reveal_strlit("host");
    reveal_strlit("match");
    let (k, v) = key_value(trim(match_line))->0;
    assert(k.len() == 5);
    assert(!ascii_ieq(k, "host"@));
}

/// The state after reading the given lines in order.
pub open spec fn ssh_fold(lines: Seq<Seq<char>>) -> (Seq<HostView>, Option<HostView>)
    decreases lines.len(),
{
    if lines.len() == 0 {
        (Seq::empty(), None)
    } else {
        ssh_step(ssh_fold(lines.drop_last()), lines.last())
    }
}

/// The hosts of a configuration text: its lines read in order, the entry
/// being read at the end included. Lines are split at `\n`; the `\r` of a
/// `\r\n` ending is whitespace and so trimmed away with the rest.
pub open spec fn parse_ssh_spec(content: Seq<char>) -> Seq<HostView> {
    let st = ssh_fold(split_on(content, '\n'));
    match st.1 {
        Some(h) => st.0.push(h),
        None => st.0,
    }
}

fn step(hosts: Vec<SshHost>, current: Option<SshHost>, raw: &[char]) -> (r: (
    Vec<SshHost>,
    Option<SshHost>,
))
    ensures
        (host_views(r.0@), opt_host_view(r.1)) == ssh_step(
            (host_views(hosts@), opt_host_view(current)),
            raw@,
        ),
{
    let mut hosts = hosts;
    let ghost hosts0 = hosts@;
    let line = trim_chars(raw);
    if line.len() == 0 || line[0] == '#' {
        return (hosts, current);
    }
    match split_key_value(&line) {
        None => (hosts, current),
        Some((k, v)) => {
            if ieq_word(&k, "host") {
                match current {
                    Some(h) => {
                        hosts.push(h);
                        assert(host_views(hosts@) =~= host_views(hosts0).push(host_view(h)));
                    },
                    None => {},
                }
                let cur = match first_plain_alias(&v) {
                    Some(a) => Some(
                        SshHost { alias: string_of(&a), hostname: None, user: None, port: None },
                    ),
                    None => None,
                };
                (hosts, cur)
            } else if ieq_word(&k, "match") {
                match current {
                    Some(h) => {
                        hosts.push(h);
                        assert(host_views(hosts@) =~= host_views(hosts0).push(host_view(h)));
                    },
                    None => {},
                }
                (hosts, None)
            } else if ieq_word(&k, "hostname") {
                let cur = match current {
                    Some(h) => Some(SshHost { hostname: Some(string_of(&v)), ..h }),
                    None => None,
                };
                (hosts, cur)
            } else if ieq_word(&k, "user") {
                let cur = match current {
                    Some(h) => Some(SshHost { user: Some(string_of(&v)), ..h }),
                    None => None,
                };
                (hosts, cur)
            } else if ieq_word(&k, "port") {
                let cur = match current {
                    Some(h) => Some(SshHost { port: Some(string_of(&v)), ..h }),
                    None => None,
                };
                (hosts, cur)
            } else {
                (hosts, current)
            }
        },
    }
}

/// Parses an SSH configuration into its host entries, skipping comments,
/// blank lines, wildcard-only `Host` lines, `Match` blocks (a `Match` line
/// ends the entry being read, and what follows it up to the next `Host`
/// belongs to no entry) and settings outside any entry.
pub fn parse_ssh_config(content: &str) -> (r: Vec<SshHost>)
    ensures
        host_views(r@) == parse_ssh_spec(content@),
{
    let chars = chars_of(content);
    let lines = split_chars(&chars, '\n');
    let n = lines.len();
    let ghost ls = views(lines@);
    let mut hosts: Vec<SshHost> = Vec::new();
    let mut current: Option<SshHost> = None;
    assert(ls.take(0) == Seq::<Seq<char>>::empty());
    assert(host_views(hosts@) == Seq::<HostView>::empty());
    for i in 0..n
        invariant
            n == lines@.len(),
            ls == views(lines@),
            ls == split_on(content@, '\n'),
            (host_views(hosts@), opt_host_view(current)) == ssh_fold(ls.take(i as int)),
    {
        assert(ls.take(i + 1).drop_last() == ls.take(i as int));
        assert(ls[i as int] == lines@[i as int]@);
        let (h2, c2) = step(hosts, current, &lines[i]);
        hosts = h2;
        current = c2;
    }
    assert(ls.take(n as int) == ls);
    let ghost before = hosts@;
    match current {
        Some(h) => {
            hosts.push(h);
            assert(host_views(hosts@) =~= host_views(before).push(host_view(h)));
        },
        None => {},
    }
    hosts
}

/// The label a host is listed with: `alias → user@hostname:port`, with the
/// parts that are set; just the alias when no hostname is set.
pub open spec fn ssh_label(h: HostView) -> Seq<char> {
    let arrow = " → "@;
    match (h.user, h.hostname, h.port) {
        (Some(u), Some(hn), Some(p)) => h.alias + arrow + u + "@"@ + hn + ":"@ + p,
        (Some(u), Some(hn), None) => h.alias + arrow + u + "@"@ + hn,
        (None, Some(hn), Some(p)) => h.alias + arrow + hn + ":"@ + p,
        (None, Some(hn), None) => h.alias + arrow + hn,
        _ => h.alias,
    }
}

/// The label a host is listed with.
pub fn build_label(host: &SshHost) -> (r: String)
    ensures
        r@ == ssh_label(host_view(*host)),
{
    match (&host.user, &host.hostname, &host.port) {
        (Some(u), Some(hn), Some(p)) => {
            let mut r = host.alias.clone();
            r.append(" → ");
            r.append(u.as_str());
            r.append("@");
            r.append(hn.as_str());
            r.append(":");
            r.append(p.as_str());
            r
        },
        (Some(u), Some(hn), None) => {
            let mut r = host.alias.clone();
            r.append(" → ");
            r.append(u.as_str());
            r.append("@");
            r.append(hn.as_str());
            r
        },
        (None, Some(hn), Some(p)) => {
            let mut r = host.alias.clone();
            r.append(" → ");
            r.append(hn.as_str());
            r.append(":");
            r.append(p.as_str());
            r
        },
        (None, Some(hn), None) => {
            let mut r = host.alias.clone();
            r.append(" → ");
            r.append(hn.as_str());
            r
        },
        _ => host.alias.clone(),
    }
}

/// The items of a configuration's hosts: the alias as raw text, the label
/// from `ssh_label`.
pub open spec fn ssh_shapes(hosts: Seq<HostView>) -> Seq<ItemShape> {
    Seq::new(
        hosts.len(),
        |k: int|
            (
                0usize,
                hosts[k].alias,
                ssh_label(hosts[k]),
                None::<(Seq<char>, Category)>,
                None::<Seq<char>>,
            ),
    )
}

/// The items of the hosts a configuration text declares.
pub fn ssh_items(content: &str) -> (r: Vec<Item>)
    ensures
        has_shapes(r@, ssh_shapes(parse_ssh_spec(content@))),
{
    let hosts = parse_ssh_config(content);
    let ghost all = ssh_shapes(host_views(hosts@));
    let mut items: Vec<Item> = Vec::new();
    let n = hosts.len();
    for k in 0..n
        invariant
            n == hosts@.len() == all.len(),
            all == ssh_shapes(host_views(hosts@)),
            has_shapes(items@, all.take(k as int)),
    {
        let label = build_label(&hosts[k]);
        let it = Item::new(0, hosts[k].alias.as_str(), label.as_str());
        assert(host_views(hosts@)[k as int] == host_view(hosts@[k as int]));
        assert(all[k as int] == shape(it));
        proof {
            lemma_has_shapes_push(items@, all.take(k as int), it, shape(it));
            assert(all.take(k as int).push(all[k as int]) =~= all.take(k + 1));
        }
        items.push(it);
    }
    assert(all.take(n as int) =~= all);
    items
}

/// The user's home directory (`dirs::home_dir`), lossily as text. It
/// depends on the environment and the platform; nothing is promised of it.
#[verifier::external_body]
fn user_home_dir() -> (r: Option<String>) {
    dirs::home_dir().map(|p| p.to_string_lossy().to_string())
}

/// `<home>/.ssh/config`.
pub open spec fn config_path_in(home: Seq<char>) -> Seq<char> {
    path_push(path_push(home, ".ssh"@), "config"@)
}

/// Hosts of the user's SSH client configuration.
#[derive(Debug, Clone, Copy)]
pub struct SshProvider;

impl SshProvider {
    pub fn new() -> (r: SshProvider) {
        SshProvider
    }

    /// The configuration file under a home directory.
    pub fn config_path_under(home: &str) -> (r: String)
        ensures
            r@ == config_path_in(home@),
    {
        let mut p = String::from_str(home);
        push_path(&mut p, ".ssh");
        push_path(&mut p, "config");
        p
    }

    /// The user's configuration file, when the home directory is known.
    pub fn config_path() -> (r: Option<String>)
        ensures
            r matches Some(p) ==> exists|home: Seq<char>| p@ == config_path_in(home),
    {
        match user_home_dir() {
            Some(h) => Some(Self::config_path_under(h.as_str())),
            None => None,
        }
    }
}

impl Default for SshProvider {
    fn default() -> (r: SshProvider) {
        SshProvider::new()
    }
}

impl Provider for SshProvider {
    fn name(&self) -> (r: &str)
        ensures
            r@ == "ssh"@,
    {
        "ssh"
    }

    /// `ssh -G ALIAS | head -20`.
    fn preview_cmd(&self, item: &Item) -> (r: Option<String>)
        ensures
            r matches Some(c) && c@ == "ssh -G "@ + item.raw@ + " | head -20"@,
    {
        let mut c = String::from_str("ssh -G ");
        c.append(item.raw.as_str());
        c.append(" | head -20");
        Some(c)
    }
}

} // verus!
