//! Listing a git repository: file status, branches, commits, stashes and
//! worktrees, each from what was read of the repository.

use vstd::prelude::*;
use vstd::string::*;

use crate::index::{path_push, push_path};
use crate::item::{
    has_shapes, lemma_has_shapes_concat, lemma_has_shapes_push, shape, Category, Item,
    ItemShape,
};
use crate::paths::{is_path_in_dir, path_starts_with};
use crate::provider::{flag_set, Context, Provider};
use crate::quoting::{escape_for_shell, shell_escaped};
use crate::text::{chars_of, decimal, push_decimal, str_eq, string_of, take_chars};

verus! {

// ───────────────────────────── status ─────────────────────────────

/// The status flags of a file, as git reports them.
#[derive(Debug, Clone, Copy, PartialEq, Eq, Structural)]
pub struct FileStatus {
    pub index_new: bool,
    pub index_modified: bool,
    pub index_deleted: bool,
    pub index_renamed: bool,
    pub index_typechange: bool,
    pub wt_new: bool,
    pub wt_modified: bool,
    pub wt_deleted: bool,
    pub wt_typechange: bool,
    pub wt_renamed: bool,
    pub ignored: bool,
}

/// A file of the status listing: its path relative to the work tree, when
/// it has one, and its flags.
#[derive(Debug, Clone)]
pub struct StatusEntry {
    pub path: Option<String>,
    pub status: FileStatus,
}

/// Whether the index holds a change of the file.
pub open spec fn staged_spec(s: FileStatus) -> bool {
    s.index_new || s.index_modified || s.index_deleted || s.index_renamed || s.index_typechange
}

/// Whether the work tree holds an unstaged change of a tracked file.
pub open spec fn unstaged_spec(s: FileStatus) -> bool {
    s.wt_modified || s.wt_deleted || s.wt_typechange || s.wt_renamed
}

/// The status shown for a staged change: the first of added, modified,
/// deleted, renamed, type changed that holds.
pub open spec fn staged_status(s: FileStatus) -> (Seq<char>, Category) {
    if s.index_new {
        ("A"@, Category::Positive)
    } else if s.index_modified {
        ("M"@, Category::Warning)
    } else if s.index_deleted {
        ("D"@, Category::Negative)
    } else if s.index_renamed {
        ("R"@, Category::Positive)
    } else if s.index_typechange {
        ("T"@, Category::Warning)
    } else {
        ("?"@, Category::Unknown)
    }
}

/// The status shown for an unstaged change: the first of modified, deleted,
/// renamed, type changed that holds.
pub open spec fn unstaged_status(s: FileStatus) -> (Seq<char>, Category) {
    if s.wt_modified {
        ("M"@, Category::Warning)
    } else if s.wt_deleted {
        ("D"@, Category::Negative)
    } else if s.wt_renamed {
        ("R"@, Category::Positive)
    } else if s.wt_typechange {
        ("T"@, Category::Warning)
    } else {
        ("?"@, Category::Unknown)
    }
}

pub fn is_staged(s: FileStatus) -> (r: bool)
    ensures
        r == staged_spec(s),
{
    s.index_new || s.index_modified || s.index_deleted || s.index_renamed || s.index_typechange
}

pub fn is_unstaged(s: FileStatus) -> (r: bool)
    ensures
        r == unstaged_spec(s),
{
    s.wt_modified || s.wt_deleted || s.wt_typechange || s.wt_renamed
}

pub fn staged_status_str(s: FileStatus) -> (r: (&'static str, Category))
    ensures
        (r.0@, r.1) == staged_status(s),
{
    if s.index_new {
        ("A", Category::Positive)
    } else if s.index_modified {
        ("M", Category::Warning)
    } else if s.index_deleted {
        ("D", Category::Negative)
    } else if s.index_renamed {
        ("R", Category::Positive)
    } else if s.index_typechange {
        ("T", Category::Warning)
    } else {
        ("?", Category::Unknown)
    }
}

pub fn unstaged_status_str(s: FileStatus) -> (r: (&'static str, Category))
    ensures
        (r.0@, r.1) == unstaged_status(s),
{
    if s.wt_modified {
        ("M", Category::Warning)
    } else if s.wt_deleted {
        ("D", Category::Negative)
    } else if s.wt_renamed {
        ("R", Category::Positive)
    } else if s.wt_typechange {
        ("T", Category::Warning)
    } else {
        ("?", Category::Unknown)
    }
}

/// The four groups of the status listing, in the order they are shown.
#[derive(Debug, Clone, Copy, PartialEq, Eq, Structural)]
pub enum StatusGroup {
    Staged,
    Unstaged,
    Untracked,
    Ignored,
}

/// A file's path relative to the work tree (empty when it has none).
pub open spec fn rel_path(e: StatusEntry) -> Seq<char> {
    match e.path {
        Some(p) => p@,
        None => Seq::empty(),
    }
}

/// What a file contributes to a group, if anything: its full path as raw
/// text, its relative path as label, and the group's status.
pub open spec fn entry_shape(wd: Seq<char>, e: StatusEntry, g: StatusGroup, with_ignored: bool) -> Option<
    ItemShape,
> {
    let raw = path_push(wd, rel_path(e));
    let rel = rel_path(e);
    match g {
        StatusGroup::Staged => if staged_spec(e.status) {
            Some((0usize, raw, rel, Some(staged_status(e.status)), Some("staged"@)))
        } else {
            None
        },
        StatusGroup::Unstaged => if unstaged_spec(e.status) {
            Some((0usize, raw, rel, Some(unstaged_status(e.status)), Some("unstaged"@)))
        } else {
            None
        },
        StatusGroup::Untracked => if e.status.wt_new {
            Some((0usize, raw, rel, Some(("??"@, Category::Neutral)), Some("untracked"@)))
        } else {
            None
        },
        StatusGroup::Ignored => if with_ignored && e.status.ignored {
            Some((0usize, raw, rel, Some(("!!"@, Category::Neutral)), Some("ignored"@)))
        } else {
            None
        },
    }
}

/// The items of one group, in the files' order.
pub open spec fn group_shapes(wd: Seq<char>, es: Seq<StatusEntry>, g: StatusGroup, with_ignored: bool) -> Seq<
    ItemShape,
>
    decreases es.len(),
{
    if es.len() == 0 {
        Seq::empty()
    } else {
        let r = group_shapes(wd, es.drop_last(), g, with_ignored);
        match entry_shape(wd, es.last(), g, with_ignored) {
            Some(x) => r.push(x),
            None => r,
        }
    }
}

/// The status listing: staged, then unstaged, then untracked, then (when
/// asked for) ignored files. A file can be in several groups.
pub open spec fn status_shapes(wd: Seq<char>, es: Seq<StatusEntry>, with_ignored: bool) -> Seq<
    ItemShape,
> {
    group_shapes(wd, es, StatusGroup::Staged, with_ignored) + group_shapes(
        wd,
        es,
        StatusGroup::Unstaged,
        with_ignored,
    ) + group_shapes(wd, es, StatusGroup::Untracked, with_ignored) + group_shapes(
        wd,
        es,
        StatusGroup::Ignored,
        with_ignored,
    )
}

/// The item of a file in a group.
fn status_item(raw: &str, rel: &str, text: &str, cat: Category, group: &str) -> (r: Item)
    ensures
        shape(r) == (0usize, raw@, rel@, Some((text@, cat)), Some(group@)),
        r.meta@.len() == 0,
{
    Item::new(0, raw, rel).with_status(text, cat).with_group(group)
}

/// The status items of the files of a work tree `workdir`.
pub fn status_items(workdir: &str, entries: &Vec<StatusEntry>, with_ignored: bool) -> (r: Vec<Item>)
    ensures
        has_shapes(r@, status_shapes(workdir@, entries@, with_ignored)),
{
    let mut staged: Vec<Item> = Vec::new();
    let mut unstaged: Vec<Item> = Vec::new();
    let mut untracked: Vec<Item> = Vec::new();
    let mut ignored: Vec<Item> = Vec::new();
    let n = entries.len();
    let ghost wd = workdir@;
    let ghost es = entries@;
    for i in 0..n
        invariant
            n == es.len(),
            es == entries@,
            wd == workdir@,
            has_shapes(staged@, group_shapes(wd, es.take(i as int), StatusGroup::Staged, with_ignored)),
            has_shapes(unstaged@, group_shapes(wd, es.take(i as int), StatusGroup::Unstaged, with_ignored)),
            has_shapes(untracked@, group_shapes(wd, es.take(i as int), StatusGroup::Untracked, with_ignored)),
            has_shapes(ignored@, group_shapes(wd, es.take(i as int), StatusGroup::Ignored, with_ignored)),
    {
        let ghost before = es.take(i as int);
        assert(es.take(i + 1).drop_last() =~= before);
        assert(es.take(i + 1).last() == es[i as int]);
        let e = &entries[i];
        let rel = match &e.path {
            Some(p) => p.clone(),
            None => String::new(),
        };
        assert(rel@ == rel_path(*e));
        let mut raw = String::from_str(workdir);
        push_path(&mut raw, rel.as_str());
        let s = e.status;
        if is_staged(s) {
            let st = staged_status_str(s);
            let it = status_item(raw.as_str(), rel.as_str(), st.0, st.1, "staged");
            proof {
                lemma_has_shapes_push(staged@, group_shapes(wd, before, StatusGroup::Staged, with_ignored), it, shape(it));
            }
            staged.push(it);
        }
        if is_unstaged(s) {
            let st = unstaged_status_str(s);
            let it = status_item(raw.as_str(), rel.as_str(), st.0, st.1, "unstaged");
            proof {
                lemma_has_shapes_push(unstaged@, group_shapes(wd, before, StatusGroup::Unstaged, with_ignored), it, shape(it));
            }
            unstaged.push(it);
        }
        if s.wt_new {
            let it = status_item(raw.as_str(), rel.as_str(), "??", Category::Neutral, "untracked");
            proof {
                lemma_has_shapes_push(untracked@, group_shapes(wd, before, StatusGroup::Untracked, with_ignored), it, shape(it));
            }
            untracked.push(it);
        }
        if with_ignored && s.ignored {
            let it = status_item(raw.as_str(), rel.as_str(), "!!", Category::Neutral, "ignored");
            proof {
                lemma_has_shapes_push(ignored@, group_shapes(wd, before, StatusGroup::Ignored, with_ignored), it, shape(it));
            }
            ignored.push(it);
        }
    }
    assert(es.take(n as int) =~= es);
    let ghost s1 = group_shapes(wd, es, StatusGroup::Staged, with_ignored);
    let ghost s2 = group_shapes(wd, es, StatusGroup::Unstaged, with_ignored);
    let ghost s3 = group_shapes(wd, es, StatusGroup::Untracked, with_ignored);
    let ghost s4 = group_shapes(wd, es, StatusGroup::Ignored, with_ignored);
    let mut items = staged;
    proof {
        lemma_has_shapes_concat(items@, s1, unstaged@, s2);
    }
    items.append(&mut unstaged);
    proof {
        lemma_has_shapes_concat(items@, s1 + s2, untracked@, s3);
    }
    items.append(&mut untracked);
    proof {
        lemma_has_shapes_concat(items@, s1 + s2 + s3, ignored@, s4);
    }
    items.append(&mut ignored);
    items
}

/// How a file is previewed: its text through `bat` when present, else `cat`.
pub open spec fn file_preview(q: Seq<char>) -> Seq<char> {
    "bat --style=plain -- "@ + q + " 2>/dev/null || cat -- "@ + q
}

/// The preview command of a file: the file's text.
pub fn file_preview_cmd(raw: &str) -> (r: String)
    ensures
        r@ == file_preview(shell_escaped(raw@)),
{
    let q = escape_for_shell(raw);
    let mut c = String::from_str("bat --style=plain -- ");
    c.append(q.as_str());
    c.append(" 2>/dev/null || cat -- ");
    c.append(q.as_str());
    c
}

/// Whether an item is in the group named `g`.
pub fn in_group(item: &Item, g: &str) -> (r: bool)
    ensures
        r == (item.group matches Some(x) && x@ == g@),
{
    match &item.group {
        Some(x) => str_eq(x.as_str(), g),
        None => false,
    }
}

/// Files with staged, unstaged, untracked (and ignored) changes.
#[derive(Debug, Clone, Copy)]
pub struct GitStatusProvider;

impl GitStatusProvider {
    pub fn new() -> (r: GitStatusProvider) {
        GitStatusProvider
    }

    /// Whether ignored files are listed: flag `ignored`.
    pub fn with_ignored(ctx: &Context) -> (r: bool)
        ensures
            r == flag_set(ctx.flags@).contains("ignored"@),
    {
        ctx.has_flag("ignored")
    }
}

impl Default for GitStatusProvider {
    fn default() -> (r: GitStatusProvider) {
        GitStatusProvider::new()
    }
}

impl Provider for GitStatusProvider {
    fn name(&self) -> (r: &str)
        ensures
            r@ == "git-status"@,
    {
        "git-status"
    }

    /// The staged diff of a staged file, the unstaged diff of an unstaged
    /// one, the text of any other; the path quoted for the shell.
    fn preview_cmd(&self, item: &Item) -> (r: Option<String>)
        ensures
            r is Some,
            item.group matches Some(g) && g@ == "staged"@ ==> r->Some_0@ == "git diff --cached -- "@
                + shell_escaped(item.raw@),
            item.group matches Some(g) && g@ == "unstaged"@ ==> r->Some_0@ == "git diff -- "@
                + shell_escaped(item.raw@),
            !(item.group matches Some(g) && (g@ == "staged"@ || g@ == "unstaged"@)) ==> r->Some_0@
                == file_preview(shell_escaped(item.raw@)),
    {
        proof {
            reveal_strlit("staged");
            reveal_strlit("unstaged");
            assert("staged"@.len() != "unstaged"@.len());
        }
        if in_group(item, "staged") {
            let mut c = String::from_str("git diff --cached -- ");
            let q = escape_for_shell(item.raw.as_str());
            c.append(q.as_str());
            Some(c)
        } else if in_group(item, "unstaged") {
            let mut c = String::from_str("git diff -- ");
            let q = escape_for_shell(item.raw.as_str());
            c.append(q.as_str());
            Some(c)
        } else {
            Some(file_preview_cmd(item.raw.as_str()))
        }
    }
}

// ───────────────────────────── branches ─────────────────────────────

/// The items of the branches: local ones (the checked-out one marked `*`),
/// then remote ones.
pub open spec fn branch_shapes(head: Option<Seq<char>>, local: Seq<Seq<char>>, remote: Seq<Seq<char>>) -> Seq<
    ItemShape,
> {
    Seq::new(
        local.len(),
        |k: int|
            (
                0usize,
                local[k],
                local[k],
                if head == Some(local[k]) {
                    Some(("*"@, Category::Positive))
                } else {
                    None
                },
                Some("local"@),
            ),
    ) + Seq::new(
        remote.len(),
        |k: int| (0usize, remote[k], remote[k], None::<(Seq<char>, Category)>, Some("remote"@)),
    )
}

/// The branch items, given the checked-out branch's short name.
pub fn branch_items(head: &Option<String>, local: &Vec<String>, remote: &Vec<String>) -> (r: Vec<Item>)
    ensures
        has_shapes(
            r@,
            branch_shapes(
                crate::item::opt_view(*head),
                crate::text::string_views(local@),
                crate::text::string_views(remote@),
            ),
        ),
{
    let ghost hv = crate::item::opt_view(*head);
    let ghost lv = crate::text::string_views(local@);
    let ghost rv = crate::text::string_views(remote@);
    let ghost all = branch_shapes(hv, lv, rv);
    let mut items: Vec<Item> = Vec::new();
    let n = local.len();
    for k in 0..n
        invariant
            n == local@.len(),
            lv == crate::text::string_views(local@),
            hv == crate::item::opt_view(*head),
            all == branch_shapes(hv, lv, rv),
            has_shapes(items@, all.take(k as int)),
    {
        let name = &local[k];
        let is_head = match head {
            Some(h) => str_eq(h.as_str(), name.as_str()),
            None => false,
        };
        let mut it = Item::new(0, name.as_str(), name.as_str()).with_group("local");
        if is_head {
            it = it.with_status("*", Category::Positive);
        }
        assert(all[k as int] == shape(it));
        proof {
            lemma_has_shapes_push(items@, all.take(k as int), it, shape(it));
            assert(all.take(k as int).push(all[k as int]) =~= all.take(k + 1));
        }
        items.push(it);
    }
    let m = remote.len();
    for k in 0..m
        invariant
            n == local@.len() == lv.len(),
            m == remote@.len(),
            rv == crate::text::string_views(remote@),
            all == branch_shapes(hv, lv, rv),
            has_shapes(items@, all.take(n + k)),
    {
        let name = &remote[k];
        let it = Item::new(0, name.as_str(), name.as_str()).with_group("remote");
        assert(all[n + k] == shape(it));
        proof {
            lemma_has_shapes_push(items@, all.take(n + k), it, shape(it));
            assert(all.take(n + k).push(all[n + k]) =~= all.take(n + k + 1));
        }
        items.push(it);
    }
    assert(all.take(n + m) =~= all);
    items
}

/// Local and remote branches.
#[derive(Debug, Clone, Copy)]
pub struct GitBranchProvider;

impl GitBranchProvider {
    pub fn new() -> (r: GitBranchProvider) {
        GitBranchProvider
    }
}

impl Default for GitBranchProvider {
    fn default() -> (r: GitBranchProvider) {
        GitBranchProvider::new()
    }
}

impl Provider for GitBranchProvider {
    fn name(&self) -> (r: &str)
        ensures
            r@ == "git-branches"@,
    {
        "git-branches"
    }

    /// The branch's last commits, the name quoted for the shell.
    fn preview_cmd(&self, item: &Item) -> (r: Option<String>)
        ensures
            r matches Some(c) && c@ == "git log --oneline -15 "@ + shell_escaped(item.raw@),
    {
        let mut c = String::from_str("git log --oneline -15 ");
        let q = escape_for_shell(item.raw.as_str());
        c.append(q.as_str());
        Some(c)
    }
}

// ───────────────────────────── log ─────────────────────────────

/// How many commits the log lists at most.
pub const LOG_LIMIT: usize = 500;

/// The items of commits `(id, summary)`: the full id as raw text, the
/// first seven characters of the id and the summary as label; at most
/// `LOG_LIMIT` of them, newest first as given.
pub open spec fn log_shapes(commits: Seq<(String, String)>) -> Seq<ItemShape> {
    let n = if commits.len() <= LOG_LIMIT {
        commits.len() as int
    } else {
        LOG_LIMIT as int
    };
    Seq::new(
        n as nat,
        |k: int|
            (
                0usize,
                commits[k].0@,
                commits[k].0@.take(7) + seq![' '] + commits[k].1@,
                None::<(Seq<char>, Category)>,
                None::<Seq<char>>,
            ),
    )
}

/// The commit items. Commit ids begin with seven ASCII characters (they
/// are hexadecimal).
pub fn log_items(commits: &Vec<(String, String)>) -> (r: Vec<Item>)
    requires
        forall|k: int|
            0 <= k < commits@.len() ==> (#[trigger] commits@[k]).0@.len() >= 7 && forall|j: int|
                0 <= j < 7 ==> (commits@[k].0@[j] as int) < 128,
    ensures
        has_shapes(r@, log_shapes(commits@)),
{
    let ghost all = log_shapes(commits@);
    let n = if commits.len() <= LOG_LIMIT {
        commits.len()
    } else {
        LOG_LIMIT
    };
    let mut items: Vec<Item> = Vec::new();
    for k in 0..n
        invariant
            n <= commits@.len(),
            n == all.len(),
            forall|q: int| 0 <= q < commits@.len() ==> (#[trigger] commits@[q]).0@.len() >= 7,
            all == log_shapes(commits@),
            has_shapes(items@, all.take(k as int)),
    {
        let id = &commits[k].0;
        let c = chars_of(id.as_str());
        let short = take_chars(&c, 7);
        let mut label = string_of(&short);
        label.push(' ');
        label.append(commits[k].1.as_str());
        let it = Item::new(0, id.as_str(), label.as_str());
        assert(all[k as int] == shape(it));
        proof {
            lemma_has_shapes_push(items@, all.take(k as int), it, shape(it));
            assert(all.take(k as int).push(all[k as int]) =~= all.take(k + 1));
        }
        items.push(it);
    }
    assert(all.take(n as int) =~= all);
    items
}

/// Commits reachable from the checked-out one.
#[derive(Debug, Clone, Copy)]
pub struct GitLogProvider;

impl GitLogProvider {
    pub fn new() -> (r: GitLogProvider) {
        GitLogProvider
    }
}

impl Default for GitLogProvider {
    fn default() -> (r: GitLogProvider) {
        GitLogProvider::new()
    }
}

impl Provider for GitLogProvider {
    fn name(&self) -> (r: &str)
        ensures
            r@ == "gl"@,
    {
        "gl"
    }

    /// `git show --color=always ID`.
    fn preview_cmd(&self, item: &Item) -> (r: Option<String>)
        ensures
            r matches Some(c) && c@ == "git show --color=always "@ + item.raw@,
    {
        let mut c = String::from_str("git show --color=always ");
        c.append(item.raw.as_str());
        Some(c)
    }
}

// ───────────────────────────── stash ─────────────────────────────

/// The items of stash entries `(index, message)`: `stash@{N}` as raw text,
/// `[N] message` as label.
pub open spec fn stash_shapes(entries: Seq<(usize, String)>) -> Seq<ItemShape> {
    Seq::new(
        entries.len(),
        |k: int|
            (
                0usize,
                "stash@{"@ + decimal(entries[k].0 as nat) + seq!['}'],
                seq!['['] + decimal(entries[k].0 as nat) + "] "@ + entries[k].1@,
                None::<(Seq<char>, Category)>,
                None::<Seq<char>>,
            ),
    )
}

/// The stash items.
pub fn stash_items(entries: &Vec<(usize, String)>) -> (r: Vec<Item>)
    ensures
        has_shapes(r@, stash_shapes(entries@)),
{
    let ghost all = stash_shapes(entries@);
    let n = entries.len();
    let mut items: Vec<Item> = Vec::new();
    for k in 0..n
        invariant
            n == entries@.len() == all.len(),
            all == stash_shapes(entries@),
            has_shapes(items@, all.take(k as int)),
    {
        let idx = entries[k].0;
        let mut raw = String::from_str("stash@{");
        push_decimal(&mut raw, idx as u64);
        raw.push('}');
        let mut label = String::new();
        label.push('[');
        push_decimal(&mut label, idx as u64);
        label.append("] ");
        label.append(entries[k].1.as_str());
        let it = Item::new(0, raw.as_str(), label.as_str());
        assert(all[k as int] == shape(it));
        proof {
            lemma_has_shapes_push(items@, all.take(k as int), it, shape(it));
            assert(all.take(k as int).push(all[k as int]) =~= all.take(k + 1));
        }
        items.push(it);
    }
    assert(all.take(n as int) =~= all);
    items
}

/// Stash entries.
#[derive(Debug, Clone, Copy)]
pub struct GitStashProvider;

impl GitStashProvider {
    pub fn new() -> (r: GitStashProvider) {
        GitStashProvider
    }
}

impl Default for GitStashProvider {
    fn default() -> (r: GitStashProvider) {
        GitStashProvider::new()
    }
}

impl Provider for GitStashProvider {
    fn name(&self) -> (r: &str)
        ensures
            r@ == "git-stash"@,
    {
        "git-stash"
    }

    /// The stash's patch, the entry quoted for the shell.
    fn preview_cmd(&self, item: &Item) -> (r: Option<String>)
        ensures
            r matches Some(c) && c@ == "git stash show -p "@ + shell_escaped(item.raw@),
    {
        let mut c = String::from_str("git stash show -p ");
        let q = escape_for_shell(item.raw.as_str());
        c.append(q.as_str());
        Some(c)
    }
}

// ───────────────────────────── worktrees ─────────────────────────────

/// What a listing reads of a linked worktree.
#[derive(Debug, Clone)]
pub struct WorktreeInfo {
    pub path: String,
    /// The short name of its checked-out branch, if any.
    pub branch: Option<String>,
    /// The worktree's name.
    pub name: String,
}

/// The item of a worktree at `path` with branch `branch`: marked `*` when
/// the working directory `cwd` lies in it, else showing its path.
pub open spec fn worktree_shape(path: Seq<char>, branch: Seq<char>, cwd: Seq<char>) -> ItemShape {
    (
        0usize,
        path,
        branch,
        if path_starts_with(cwd, path) {
            Some(("*"@, Category::Positive))
        } else {
            Some((path, Category::Neutral))
        },
        Some("worktrees"@),
    )
}

/// The item of a worktree.
pub fn create_worktree_item(path: &str, branch_name: &str, cwd: &str) -> (r: Item)
    ensures
        shape(r) == worktree_shape(path@, branch_name@, cwd@),
        r.meta@.len() == 0,
{
    let is_current = is_path_in_dir(cwd, path);
    let mut item = Item::new(0, path, branch_name).with_group("worktrees").with_status(
        path,
        Category::Neutral,
    );
    if is_current {
        item = item.with_status("*", Category::Positive);
    }
    item
}

/// A branch name, or a fallback when there is none.
pub open spec fn or_else(o: Option<String>, fallback: Seq<char>) -> Seq<char> {
    match o {
        Some(s) => s@,
        None => fallback,
    }
}

/// The items of the worktrees: the main one first (its branch, or `HEAD`),
/// then each linked one (its branch, or its name).
pub open spec fn worktree_shapes(
    main_path: Seq<char>,
    main_branch: Option<String>,
    others: Seq<WorktreeInfo>,
    cwd: Seq<char>,
) -> Seq<ItemShape> {
    seq![worktree_shape(main_path, or_else(main_branch, "HEAD"@), cwd)] + Seq::new(
        others.len(),
        |k: int| worktree_shape(others[k].path@, or_else(others[k].branch, others[k].name@), cwd),
    )
}

/// The worktree items.
pub fn worktree_items(
    main_path: &str,
    main_branch: &Option<String>,
    others: &Vec<WorktreeInfo>,
    cwd: &str,
) -> (r: Vec<Item>)
    ensures
        has_shapes(r@, worktree_shapes(main_path@, *main_branch, others@, cwd@)),
{
    let ghost all = worktree_shapes(main_path@, *main_branch, others@, cwd@);
    let mut items: Vec<Item> = Vec::new();
    let first = match main_branch {
        Some(b) => create_worktree_item(main_path, b.as_str(), cwd),
        None => create_worktree_item(main_path, "HEAD", cwd),
    };
    proof {
        lemma_has_shapes_push(items@, all.take(0), first, shape(first));
        assert(all.take(0).push(all[0]) =~= all.take(1));
    }
    items.push(first);
    let n = others.len();
    for k in 0..n
        invariant
            n == others@.len(),
            all.len() == n + 1,
            all == worktree_shapes(main_path@, *main_branch, others@, cwd@),
            has_shapes(items@, all.take(k + 1)),
    {
        let o = &others[k];
        let it = match &o.branch {
            Some(b) => create_worktree_item(o.path.as_str(), b.as_str(), cwd),
            None => create_worktree_item(o.path.as_str(), o.name.as_str(), cwd),
        };
        assert(all[k + 1] == shape(it));
        proof {
            lemma_has_shapes_push(items@, all.take(k + 1), it, shape(it));
            assert(all.take(k + 1).push(all[k + 1]) =~= all.take(k + 2));
        }
        items.push(it);
    }
    assert(all.take(n + 1) =~= all);
    items
}

/// Worktrees of the repository.
#[derive(Debug, Clone, Copy)]
pub struct GitWorktreeProvider;

impl GitWorktreeProvider {
    pub fn new() -> (r: GitWorktreeProvider) {
        GitWorktreeProvider
    }
}

impl Default for GitWorktreeProvider {
    fn default() -> (r: GitWorktreeProvider) {
        GitWorktreeProvider::new()
    }
}

impl Provider for GitWorktreeProvider {
    fn name(&self) -> (r: &str)
        ensures
            r@ == "git-worktrees"@,
    {
        "git-worktrees"
    }

    /// The worktree's last commits: `git -C "PATH" log --oneline -15`.
    fn preview_cmd(&self, item: &Item) -> (r: Option<String>)
        ensures
            r matches Some(c) && c@ == "git -C \""@ + item.raw@ + "\" log --oneline -15"@,
    {
        let mut c = String::from_str("git -C \"");
        c.append(item.raw.as_str());
        c.append("\" log --oneline -15");
        Some(c)
    }
}

} // verus!
