//! Listing files: one directory (`ls`), or a tree walked recursively
//! (`fd`).

use vstd::prelude::*;
use vstd::string::*;

use crate::git::{file_preview, file_preview_cmd, in_group};
use crate::item::{has_shapes, lemma_has_shapes_concat, lemma_has_shapes_push, shape, Item, ItemShape};
use crate::order::{entry_views, sort_entries, sort_spec, KeyView, SortKey};
use crate::paths::{paths_equal, relative_path, relative_to, same_path};
use crate::provider::{flag_set, Context, Provider};
use crate::quoting::{escape_for_shell, shell_escaped};
use crate::text::chars_of;

verus! {

/// Whether dotfiles are shown (flag `a`, `hidden`, `A` or `all`) and
/// whether ignored files are too (flag `A` or `all`).
pub open spec fn show_flags(flags: Set<Seq<char>>) -> (bool, bool) {
    let all = flags.contains("A"@) || flags.contains("all"@);
    (flags.contains("a"@) || flags.contains("hidden"@) || all, all)
}

/// The flags of a context, as `show_flags` reads them.
pub fn listing_flags(ctx: &Context) -> (r: (bool, bool))
    ensures
        r == show_flags(flag_set(ctx.flags@)),
{
    let all = ctx.has_flag("A") || ctx.has_flag("all");
    let hidden = ctx.has_flag("a") || ctx.has_flag("hidden") || all;
    (hidden, all)
}

/// The preview of a listed path: a directory's listing, else the file's
/// text; the path quoted for the shell.
pub open spec fn path_preview(item: Item) -> Seq<char> {
    if item.group matches Some(g) && g@ == "dirs"@ {
        "ls -la "@ + shell_escaped(item.raw@)
    } else {
        file_preview(shell_escaped(item.raw@))
    }
}

fn path_preview_cmd(item: &Item) -> (r: String)
    ensures
        r@ == path_preview(*item),
{
    if in_group(item, "dirs") {
        let mut c = String::from_str("ls -la ");
        let q = escape_for_shell(item.raw.as_str());
        c.append(q.as_str());
        c
    } else {
        file_preview_cmd(item.raw.as_str())
    }
}

// ───────────────────────────── one directory ─────────────────────────────

/// What a listing reads of a directory entry. `ignored` says whether the
/// repository around the directory, if any, ignores it.
#[derive(Debug, Clone)]
pub struct FsEntry {
    pub name: String,
    pub path: String,
    pub is_dir: bool,
    pub ignored: bool,
}

/// Whether an entry is listed: dotfiles only when shown, ignored files only
/// when all are shown.
pub open spec fn fs_kept(e: FsEntry, hidden: bool, all: bool) -> bool {
    name_kept(e.name@, e.ignored, hidden, all)
}

/// Whether an entry with this name is listed: dotfiles only when shown,
/// ignored files only when all are shown.
pub open spec fn name_kept(name: Seq<char>, ignored: bool, hidden: bool, all: bool) -> bool {
    &&& hidden || !(name.len() > 0 && name[0] == '.')
    &&& all || !ignored
}

/// Whether an entry named `name` is listed.
pub fn fs_keeps(name: &str, ignored: bool, hidden: bool, all: bool) -> (r: bool)
    ensures
        r == name_kept(name@, ignored, hidden, all),
{
    let c = chars_of(name);
    let dotfile = c.len() > 0 && c[0] == '.';
    (hidden || !dotfile) && (all || !ignored)
}

/// The listed directories (`dirs`) or other files (`!dirs`), in order.
pub open spec fn fs_group(es: Seq<FsEntry>, dirs: bool, hidden: bool, all: bool) -> Seq<FsEntry>
    decreases es.len(),
{
    if es.len() == 0 {
        Seq::empty()
    } else if fs_kept(es.last(), hidden, all) && es.last().is_dir == dirs {
        fs_group(es.drop_last(), dirs, hidden, all).push(es.last())
    } else {
        fs_group(es.drop_last(), dirs, hidden, all)
    }
}

/// Entries keyed by name.
pub open spec fn fs_keyed(es: Seq<FsEntry>) -> Seq<(KeyView, FsEntry)> {
    es.map_values(|e: FsEntry| ((0u64, e.name@, Seq::<char>::empty()), e))
}

/// The items of sorted entries in group `g`: path as raw text, name as label.
pub open spec fn fs_shapes_of(sorted: Seq<(KeyView, FsEntry)>, g: Seq<char>) -> Seq<ItemShape> {
    Seq::new(
        sorted.len(),
        |k: int| (0usize, sorted[k].1.path@, sorted[k].1.name@, None, Some(g)),
    )
}

/// The listing: directories by name, then other files by name.
pub open spec fn fs_shapes(es: Seq<FsEntry>, hidden: bool, all: bool) -> Seq<ItemShape> {
    fs_shapes_of(sort_spec(fs_keyed(fs_group(es, true, hidden, all))), "dirs"@) + fs_shapes_of(
        sort_spec(fs_keyed(fs_group(es, false, hidden, all))),
        "files"@,
    )
}

/// The items of one group's entries, sorted by name.
fn fs_group_items(group: Vec<FsEntry>, g: &str) -> (r: Vec<Item>)
    ensures
        has_shapes(r@, fs_shapes_of(sort_spec(fs_keyed(group@)), g@)),
{
    let ghost orig = group@;
    let mut rest = group;
    let mut entries: Vec<(SortKey, FsEntry)> = Vec::new();
    let n = rest.len();
    assert(orig.skip(0) == orig);
    for i in 0..n
        invariant
            n == orig.len(),
            rest@ == orig.skip(i as int),
            entries@.len() == i,
            entry_views(entries@) == fs_keyed(orig.take(i as int)),
    {
        let e = rest.remove(0);
        assert(e == orig[i as int]);
        assert(rest@ =~= orig.skip(i + 1));
        let key = SortKey { num: 0, first: chars_of(e.name.as_str()), second: Vec::new() };
        let ghost before = entries@;
        entries.push((key, e));
        assert forall|j: int| 0 <= j < i + 1 implies #[trigger] entry_views(entries@)[j]
            == fs_keyed(orig.take(i + 1))[j] by {
            if j < i {
                assert(entries@[j] == before[j]);
                assert(entry_views(before)[j] == fs_keyed(orig.take(i as int))[j]);
            }
        }
        assert(entry_views(entries@) =~= fs_keyed(orig.take(i + 1)));
    }
    assert(orig.take(n as int) =~= orig);
    let sorted = sort_entries(entries);
    let ghost all = fs_shapes_of(sort_spec(fs_keyed(orig)), g@);
    let ghost sv = sort_spec(fs_keyed(orig));
    let mut items: Vec<Item> = Vec::new();
    let m = sorted.len();
    for k in 0..m
        invariant
            m == sorted@.len() == sv.len() == all.len(),
            entry_views(sorted@) == sv,
            all == fs_shapes_of(sv, g@),
            has_shapes(items@, all.take(k as int)),
    {
        assert(sv[k as int] == (sorted@[k as int].0@, sorted@[k as int].1));
        let e = &sorted[k].1;
        let it = Item::new(0, e.path.as_str(), e.name.as_str()).with_group(g);
        assert(all[k as int] == shape(it));
        proof {
            lemma_has_shapes_push(items@, all.take(k as int), it, shape(it));
            assert(all.take(k as int).push(all[k as int]) =~= all.take(k + 1));
        }
        items.push(it);
    }
    assert(all.take(m as int) =~= all);
    items
}

/// The items of a directory's entries.
pub fn fs_items(entries: Vec<FsEntry>, hidden: bool, all: bool) -> (r: Vec<Item>)
    ensures
        has_shapes(r@, fs_shapes(entries@, hidden, all)),
{
    let ghost orig = entries@;
    let mut rest = entries;
    let mut dirs: Vec<FsEntry> = Vec::new();
    let mut files: Vec<FsEntry> = Vec::new();
    let n = rest.len();
    assert(orig.skip(0) == orig);
    for i in 0..n
        invariant
            n == orig.len(),
            rest@ == orig.skip(i as int),
            dirs@ == fs_group(orig.take(i as int), true, hidden, all),
            files@ == fs_group(orig.take(i as int), false, hidden, all),
    {
        let e = rest.remove(0);
        assert(e == orig[i as int]);
        assert(rest@ =~= orig.skip(i + 1));
        assert(orig.take(i + 1).drop_last() =~= orig.take(i as int));
        let c = chars_of(e.name.as_str());
        let dotfile = c.len() > 0 && c[0] == '.';
        if (hidden || !dotfile) && (all || !e.ignored) {
            if e.is_dir {
                dirs.push(e);
            } else {
                files.push(e);
            }
        }
    }
    assert(orig.take(n as int) =~= orig);
    let mut items = fs_group_items(dirs, "dirs");
    let mut rest_items = fs_group_items(files, "files");
    proof {
        lemma_has_shapes_concat(
            items@,
            fs_shapes_of(sort_spec(fs_keyed(fs_group(orig, true, hidden, all))), "dirs"@),
            rest_items@,
            fs_shapes_of(sort_spec(fs_keyed(fs_group(orig, false, hidden, all))), "files"@),
        );
    }
    items.append(&mut rest_items);
    items
}

/// The entries of the working directory.
#[derive(Debug, Clone, Copy)]
pub struct FsProvider;

impl FsProvider {
    pub fn new() -> (r: FsProvider) {
        FsProvider
    }

    /// A directory can always be listed.
    pub fn detect(&self, ctx: &Context) -> (r: bool)
        ensures
            r,
    {
        true
    }
}

impl Default for FsProvider {
    fn default() -> (r: FsProvider) {
        FsProvider::new()
    }
}

impl Provider for FsProvider {
    fn name(&self) -> (r: &str)
        ensures
            r@ == "ls"@,
    {
        "ls"
    }

    fn preview_cmd(&self, item: &Item) -> (r: Option<String>)
        ensures
            r matches Some(c) && c@ == path_preview(*item),
    {
        Some(path_preview_cmd(item))
    }
}

// ───────────────────────────── a tree ─────────────────────────────

/// What a walk reads of a path under the working directory.
#[derive(Debug, Clone)]
pub struct FdEntry {
    pub path: String,
    pub is_dir: bool,
}

/// The group of a walked path.
pub open spec fn fd_group(e: FdEntry) -> Seq<char> {
    if e.is_dir {
        "dirs"@
    } else {
        "files"@
    }
}

/// The walked paths other than the working directory itself, in order.
pub open spec fn fd_kept(es: Seq<FdEntry>, cwd: Seq<char>) -> Seq<FdEntry>
    decreases es.len(),
{
    if es.len() == 0 {
        Seq::empty()
    } else if !same_path(es.last().path@, cwd) {
        fd_kept(es.drop_last(), cwd).push(es.last())
    } else {
        fd_kept(es.drop_last(), cwd)
    }
}

/// Walked paths keyed by group, then path relative to the working directory.
pub open spec fn fd_keyed(es: Seq<FdEntry>, cwd: Seq<char>) -> Seq<(KeyView, FdEntry)> {
    es.map_values(|e: FdEntry| ((0u64, fd_group(e), relative_to(e.path@, cwd)), e))
}

/// The walk's listing: directories, then files, each by relative path; the
/// full path as raw text and the relative one as label.
pub open spec fn fd_shapes(es: Seq<FdEntry>, cwd: Seq<char>) -> Seq<ItemShape> {
    let sorted = sort_spec(fd_keyed(fd_kept(es, cwd), cwd));
    Seq::new(
        sorted.len(),
        |k: int|
            (
                0usize,
                sorted[k].1.path@,
                relative_to(sorted[k].1.path@, cwd),
                None,
                Some(fd_group(sorted[k].1)),
            ),
    )
}

/// The items of a walk of `cwd`.
pub fn fd_items(cwd: &str, entries: Vec<FdEntry>) -> (r: Vec<Item>)
    ensures
        has_shapes(r@, fd_shapes(entries@, cwd@)),
{
    let ghost orig = entries@;
    let ghost kept = fd_kept(orig, cwd@);
    let mut rest = entries;
    let mut keyed: Vec<(SortKey, FdEntry)> = Vec::new();
    let n = rest.len();
    assert(orig.skip(0) == orig);
    for i in 0..n
        invariant
            n == orig.len(),
            rest@ == orig.skip(i as int),
            entry_views(keyed@) == fd_keyed(fd_kept(orig.take(i as int), cwd@), cwd@),
            keyed@.len() == fd_kept(orig.take(i as int), cwd@).len(),
    {
        let e = rest.remove(0);
        assert(e == orig[i as int]);
        assert(rest@ =~= orig.skip(i + 1));
        assert(orig.take(i + 1).drop_last() =~= orig.take(i as int));
        if !paths_equal(e.path.as_str(), cwd) {
            let label = relative_path(e.path.as_str(), cwd);
            let group: Vec<char> = if e.is_dir {
                vec!['d', 'i', 'r', 's']
            } else {
                vec!['f', 'i', 'l', 'e', 's']
            };
            proof {
                reveal_strlit("dirs");
                reveal_strlit("files");
            }
            assert(group@ =~= fd_group(e));
            let key = SortKey { num: 0, first: group, second: chars_of(label.as_str()) };
            let ghost before = keyed@;
            let ghost kb = fd_kept(orig.take(i as int), cwd@);
            keyed.push((key, e));
            assert forall|j: int| 0 <= j < keyed@.len() implies #[trigger] entry_views(keyed@)[j]
                == fd_keyed(kb.push(e), cwd@)[j] by {
                if j < before.len() {
                    assert(keyed@[j] == before[j]);
                    assert(entry_views(before)[j] == fd_keyed(kb, cwd@)[j]);
                }
            }
            assert(entry_views(keyed@) =~= fd_keyed(fd_kept(orig.take(i + 1), cwd@), cwd@));
        }
    }
    assert(orig.take(n as int) =~= orig);
    let sorted = sort_entries(keyed);
    let ghost sv = sort_spec(fd_keyed(kept, cwd@));
    let ghost all = fd_shapes(orig, cwd@);
    let mut items: Vec<Item> = Vec::new();
    let m = sorted.len();
    for k in 0..m
        invariant
            m == sorted@.len() == sv.len() == all.len(),
            entry_views(sorted@) == sv,
            sv == sort_spec(fd_keyed(fd_kept(orig, cwd@), cwd@)),
            all == fd_shapes(orig, cwd@),
            has_shapes(items@, all.take(k as int)),
    {
        assert(sv[k as int] == (sorted@[k as int].0@, sorted@[k as int].1));
        let e = &sorted[k].1;
        let label = relative_path(e.path.as_str(), cwd);
        let g = if e.is_dir {
            "dirs"
        } else {
            "files"
        };
        let it = Item::new(0, e.path.as_str(), label.as_str()).with_group(g);
        assert(all[k as int] == shape(it));
        proof {
            lemma_has_shapes_push(items@, all.take(k as int), it, shape(it));
            assert(all.take(k as int).push(all[k as int]) =~= all.take(k + 1));
        }
        items.push(it);
    }
    assert(all.take(m as int) =~= all);
    items
}

/// Every path under the working directory.
#[derive(Debug, Clone, Copy)]
pub struct FdProvider;

impl FdProvider {
    pub fn new() -> (r: FdProvider) {
        FdProvider
    }

    /// A directory can always be walked.
    pub fn detect(&self, ctx: &Context) -> (r: bool)
        ensures
            r,
    {
        true
    }
}

impl Default for FdProvider {
    fn default() -> (r: FdProvider) {
        FdProvider::new()
    }
}

impl Provider for FdProvider {
    fn name(&self) -> (r: &str)
        ensures
            r@ == "fd"@,
    {
        "fd"
    }

    fn preview_cmd(&self, item: &Item) -> (r: Option<String>)
        ensures
            r matches Some(c) && c@ == path_preview(*item),
    {
        Some(path_preview_cmd(item))
    }
}

} // verus!
