//! What the command line decides: which output format was asked for, how
//! resolved items are printed, how a listing becomes an index, what `do`
//! runs and what `diff` reports.

use vstd::prelude::*;
use vstd::string::*;

use crate::error::{is_parse_error, IxError};
use crate::glob::{glob_accepts, glob_matches, LabelFilter, GLOB_MAX_CHARS};
use crate::grouping::{regrouped, reorder_by_group};
use crate::index::Index;
use crate::item::{assign_slots, same_item, with_sequential_slots, Item};
use crate::selection::{expand, parse_spec, resolve_spec, Selection};
use crate::text::{chars_of, join, join_strings, replace, replace_all, str_eq, string_views, views};

verus! {

// ───────────────────────────── output formats ─────────────────────────────

/// How resolved items are printed.
#[derive(Debug, Clone)]
pub enum OutputFormat {
    /// Raw texts separated by spaces.
    Space,
    /// Each raw text followed by a NUL character.
    Null,
    /// Raw texts separated by newlines.
    Newline,
    /// Each raw text in double quotes, separated by `,` and a newline.
    Paste,
    /// The template once per item, `{}` replaced by the raw text.
    Template(String),
    /// The items as a JSON array.
    Json,
}

/// The format the flags ask for; the first that is set of NUL, newline,
/// paste, JSON and template wins, and spaces when none is.
pub fn output_format_from(
    null: bool,
    newline: bool,
    paste: bool,
    json: bool,
    template: &Option<String>,
) -> (r: OutputFormat)
    ensures
        null ==> r is Null,
        !null && newline ==> r is Newline,
        !null && !newline && paste ==> r is Paste,
        !null && !newline && !paste && json ==> r is Json,
        !null && !newline && !paste && !json ==> match *template {
            Some(t) => r matches OutputFormat::Template(u) && u@ == t@,
            None => r is Space,
        },
{
    if null {
        OutputFormat::Null
    } else if newline {
        OutputFormat::Newline
    } else if paste {
        OutputFormat::Paste
    } else if json {
        OutputFormat::Json
    } else {
        match template {
            Some(t) => OutputFormat::Template(t.clone()),
            None => OutputFormat::Space,
        }
    }
}

/// The raw texts of items.
pub open spec fn raws(items: Seq<Item>) -> Seq<Seq<char>> {
    items.map_values(|i: Item| i.raw@)
}

/// Each text followed by `end`.
pub open spec fn terminated(parts: Seq<Seq<char>>, end: Seq<char>) -> Seq<char>
    decreases parts.len(),
{
    if parts.len() == 0 {
        Seq::empty()
    } else {
        terminated(parts.drop_last(), end) + parts.last() + end
    }
}

/// Each text in double quotes.
pub open spec fn quoted(parts: Seq<Seq<char>>) -> Seq<Seq<char>> {
    parts.map_values(|p: Seq<char>| seq!['"'] + p + seq!['"'])
}

/// The template once per text, `{}` replaced by the text.
pub open spec fn templated(parts: Seq<Seq<char>>, tpl: Seq<char>) -> Seq<char>
    decreases parts.len(),
{
    if parts.len() == 0 {
        Seq::empty()
    } else {
        templated(parts.drop_last(), tpl) + replace(tpl, "{}"@, parts.last())
    }
}

/// What is printed of resolved items in a format; none for JSON, which is
/// written by a serializer.
pub open spec fn output_text(items: Seq<Item>, fmt: OutputFormat) -> Option<Seq<char>> {
    match fmt {
        OutputFormat::Space => Some(join(raws(items), seq![' '])),
        OutputFormat::Null => Some(terminated(raws(items), seq!['\0'])),
        OutputFormat::Newline => Some(join(raws(items), seq!['\n'])),
        OutputFormat::Paste => Some(join(quoted(raws(items)), seq![',', '\n'])),
        OutputFormat::Template(t) => Some(templated(raws(items), t@)),
        OutputFormat::Json => None,
    }
}

/// The raw texts of items, as strings.
fn raw_strings(items: &[Item]) -> (r: Vec<String>)
    ensures
        string_views(r@) == raws(items@),
{
    let mut r: Vec<String> = Vec::new();
    let n = items.len();
    for i in 0..n
        invariant
            n == items@.len(),
            r@.len() == i,
            string_views(r@) == raws(items@.take(i as int)),
    {
        let ghost before = r@;
        r.push(items[i].raw.clone());
        assert forall|j: int| 0 <= j < i + 1 implies #[trigger] string_views(r@)[j] == raws(
            items@.take(i + 1),
        )[j] by {
            if j < i {
                assert(r@[j] == before[j]);
                assert(string_views(before)[j] == raws(items@.take(i as int))[j]);
            }
        }
        assert(string_views(r@) =~= raws(items@.take(i + 1)));
    }
    assert(items@.take(n as int) =~= items@);
    r
}

/// What is printed of resolved items in a format (none for JSON).
pub fn render_output(items: &[Item], fmt: &OutputFormat) -> (r: Option<String>)
    ensures
        match output_text(items@, *fmt) {
            Some(t) => r matches Some(s) && s@ == t,
            None => r is None,
        },
{
    let rs = raw_strings(items);
    let n = rs.len();
    let ghost rv = string_views(rs@);
    match fmt {
        OutputFormat::Space => {
            let s = join_strings(rs.as_slice(), " ");
            proof {
                reveal_strlit(" ");
                assert(" "@ =~= seq![' ']);
            }
            Some(s)
        },
        OutputFormat::Newline => {
            let s = join_strings(rs.as_slice(), "\n");
            proof {
                reveal_strlit("\n");
                assert("\n"@ =~= seq!['\n']);
            }
            Some(s)
        },
        OutputFormat::Null => {
            let mut s = String::new();
            for i in 0..n
                invariant
                    n == rs@.len(),
                    rv == string_views(rs@),
                    s@ == terminated(rv.take(i as int), seq!['\0']),
            {
                assert(rv.take(i + 1).drop_last() =~= rv.take(i as int));
                s.append(rs[i].as_str());
                s.push('\0');
            }
            assert(rv.take(n as int) =~= rv);
            Some(s)
        },
        OutputFormat::Paste => {
            let mut q: Vec<String> = Vec::new();
            for i in 0..n
                invariant
                    n == rs@.len(),
                    rv == string_views(rs@),
                    q@.len() == i,
                    string_views(q@) == quoted(rv.take(i as int)),
            {
                let mut x = String::new();
                x.push('"');
                x.append(rs[i].as_str());
                x.push('"');
                let ghost before = q@;
                q.push(x);
                assert forall|j: int| 0 <= j < i + 1 implies #[trigger] string_views(q@)[j] == quoted(
                    rv.take(i + 1),
                )[j] by {
                    if j < i {
                        assert(q@[j] == before[j]);
                        assert(string_views(before)[j] == quoted(rv.take(i as int))[j]);
                    }
                }
                assert(string_views(q@) =~= quoted(rv.take(i + 1)));
            }
            assert(rv.take(n as int) =~= rv);
            let s = join_strings(q.as_slice(), ",\n");
            proof {
                reveal_strlit(",\n");
                assert(",\n"@ =~= seq![',', '\n']);
            }
            Some(s)
        },
        OutputFormat::Template(tpl) => {
            let mut s = String::new();
            proof {
                reveal_strlit("{}");
            }
            for i in 0..n
                invariant
                    n == rs@.len(),
                    rv == string_views(rs@),
                    s@ == templated(rv.take(i as int), tpl@),
            {
                assert(rv.take(i + 1).drop_last() =~= rv.take(i as int));
                proof {
                    reveal_strlit("{}");
                }
                let x = replace_all(tpl.as_str(), "{}", rs[i].as_str());
                s.append(x.as_str());
            }
            assert(rv.take(n as int) =~= rv);
            Some(s)
        },
        OutputFormat::Json => None,
    }
}

// ───────────────────────────── flags ─────────────────────────────

/// The names of the flags that are set, in order.
pub open spec fn set_flags(pairs: Seq<(&str, bool)>) -> Seq<Seq<char>>
    decreases pairs.len(),
{
    if pairs.len() == 0 {
        Seq::empty()
    } else if pairs.last().1 {
        set_flags(pairs.drop_last()).push(pairs.last().0@)
    } else {
        set_flags(pairs.drop_last())
    }
}

/// The names of the flags that are set.
pub fn flags_from(pairs: &[(&str, bool)]) -> (r: Vec<String>)
    ensures
        string_views(r@) == set_flags(pairs@),
{
    let mut r: Vec<String> = Vec::new();
    let n = pairs.len();
    for i in 0..n
        invariant
            n == pairs@.len(),
            string_views(r@) == set_flags(pairs@.take(i as int)),
    {
        assert(pairs@.take(i + 1).drop_last() =~= pairs@.take(i as int));
        if pairs[i].1 {
            let ghost before = r@;
            r.push(String::from_str(pairs[i].0));
            assert(string_views(r@) =~= string_views(before).push(pairs@[i as int].0@));
        }
    }
    assert(pairs@.take(n as int) =~= pairs@);
    r
}

// ───────────────────────────── resolving ─────────────────────────────

/// What resolving slot arguments against an index gives: the parse error,
/// the first missing slot, or the items named.
pub open spec fn resolved_ok(args: Seq<Seq<char>>, items: Seq<Item>, r: Result<Vec<Item>, IxError>) -> bool {
    match parse_spec(args) {
        Err(m) => r matches Err(e) && is_parse_error(e, m),
        Ok(sels) => match resolve_spec(items, expand(sels)) {
            Err(n) => r matches Err(e) && e == IxError::SlotOutOfRange(n, items.len() as usize),
            Ok(ix) => r matches Ok(v) && v@.len() == ix.len() && forall|k: int|
                0 <= k < ix.len() ==> same_item(#[trigger] v@[k], items[ix[k]]),
        },
    }
}

/// Copies of the items that slot arguments name in an index.
pub fn resolve_args(args: &[String], index: &Index) -> (r: Result<Vec<Item>, IxError>)
    ensures
        resolved_ok(string_views(args@), index.items@, r),
{
    let mut v: Vec<Vec<char>> = Vec::new();
    let n = args.len();
    for i in 0..n
        invariant
            n == args@.len(),
            views(v@) == string_views(args@).take(i as int),
    {
        let c = chars_of(args[i].as_str());
        let ghost before = v@;
        v.push(c);
        assert(views(v@) =~= views(before).push(c@));
        assert(string_views(args@).take(i + 1) =~= string_views(args@).take(i as int).push(
            args@[i as int]@,
        ));
    }
    assert(string_views(args@).take(n as int) =~= string_views(args@));
    let sel = match Selection::parse_chars(&v) {
        Ok(s) => s,
        Err(e) => return Err(e),
    };
    let refs = match sel.resolve(index) {
        Ok(r) => r,
        Err(e) => return Err(e),
    };
    let mut out: Vec<Item> = Vec::new();
    let m = refs.len();
    for k in 0..m
        invariant
            m == refs@.len(),
            out@.len() == k,
            forall|j: int| 0 <= j < k ==> same_item(#[trigger] out@[j], *refs@[j]),
    {
        out.push(refs[k].duplicate());
    }
    Ok(out)
}

// ───────────────────────────── do ─────────────────────────────

/// Where `do` first stands among the arguments after the program name.
pub open spec fn is_first_do(args: Seq<Seq<char>>, p: int) -> bool {
    &&& 1 <= p < args.len()
    &&& args[p] == "do"@
    &&& forall|i: int| 1 <= i < p ==> args[i] != "do"@
}

/// Splits the command line (program name first) at the first `do` after
/// the program name: the slot arguments before it and the command after.
pub fn split_do(args: &[String]) -> (r: Option<(Vec<String>, Vec<String>)>)
    requires
        args@.len() >= 1,
    ensures
        r is None <==> forall|i: int| 1 <= i < args@.len() ==> args@[i]@ != "do"@,
        r matches Some(parts) ==> exists|p: int|
            is_first_do(string_views(args@), p) && string_views(parts.0@) == string_views(
                args@,
            ).subrange(1, p) && string_views(parts.1@) == string_views(args@).subrange(
                p + 1,
                args@.len() as int,
            ),
{
    let n = args.len();
    let mut p: usize = 1;
    while p < n && !str_eq(args[p].as_str(), "do")
        invariant
            1 <= p <= n == args@.len(),
            forall|i: int| 1 <= i < p ==> args@[i]@ != "do"@,
        decreases n - p,
    {
        p = p + 1;
    }
    if p == n {
        return None;
    }
    let mut slots: Vec<String> = Vec::new();
    for i in 1..p
        invariant
            1 <= p < n == args@.len(),
            slots@.len() == i - 1,
            string_views(slots@) == string_views(args@).subrange(1, i as int),
    {
        let ghost before = slots@;
        slots.push(args[i].clone());
        assert forall|j: int| 0 <= j < i implies #[trigger] string_views(slots@)[j]
            == string_views(args@).subrange(1, i + 1)[j] by {
            if j < i - 1 {
                assert(slots@[j] == before[j]);
                assert(string_views(before)[j] == string_views(args@).subrange(1, i as int)[j]);
            }
        }
        assert(string_views(slots@) =~= string_views(args@).subrange(1, i + 1));
    }
    let mut cmd: Vec<String> = Vec::new();
    for i in p + 1..n
        invariant
            1 <= p < n == args@.len(),
            cmd@.len() == i - p - 1,
            string_views(cmd@) == string_views(args@).subrange(p + 1, i as int),
    {
        let ghost before = cmd@;
        cmd.push(args[i].clone());
        assert forall|j: int| 0 <= j < i - p implies #[trigger] string_views(cmd@)[j]
            == string_views(args@).subrange(p + 1, i + 1)[j] by {
            if j < i - p - 1 {
                assert(cmd@[j] == before[j]);
                assert(string_views(before)[j] == string_views(args@).subrange(p + 1, i as int)[j]);
            }
        }
        assert(string_views(cmd@) =~= string_views(args@).subrange(p + 1, i + 1));
    }
    assert(is_first_do(string_views(args@), p as int));
    Some((slots, cmd))
}

/// The usage error of `do`.
pub open spec fn do_usage() -> Seq<char> {
    "usage: ix <slots> do <command...>"@
}

/// `do` needs slots and a command.
pub fn check_do_usage(slots: &[String], command: &[String]) -> (r: Result<(), IxError>)
    ensures
        r is Ok <==> slots@.len() > 0 && command@.len() > 0,
        r matches Err(e) ==> e matches IxError::Other(m) && m@ == do_usage(),
{
    if slots.len() == 0 || command.len() == 0 {
        return Err(IxError::Other(String::from_str("usage: ix <slots> do <command...>")));
    }
    Ok(())
}

/// The commands `do` runs: the command words joined by spaces, `{}`
/// replaced by each item's raw text in turn.
pub open spec fn do_commands(command: Seq<Seq<char>>, items: Seq<Item>) -> Seq<Seq<char>> {
    Seq::new(items.len(), |k: int| replace(join(command, seq![' ']), "{}"@, items[k].raw@))
}

/// Where a run of `do` commands stops: the position of the first command
/// that failed (`ok[i]` false), or `None` when all succeeded; the commands
/// after a failure are not run.
pub fn do_outcome(ok: &[bool]) -> (r: Option<usize>)
    ensures
        r matches Some(i) ==> i < ok@.len() && !ok@[i as int] && forall|j: int| 0 <= j < i ==> ok@[j],
        r is None ==> forall|j: int| 0 <= j < ok@.len() ==> ok@[j],
{
    let n = ok.len();
    for i in 0..n
        invariant
            n == ok@.len(),
            forall|j: int| 0 <= j < i ==> ok@[j],
    {
        if !ok[i] {
            return Some(i);
        }
    }
    None
}

/// The commands `do` runs.
pub fn expand_do(command: &[String], items: &[Item]) -> (r: Vec<String>)
    ensures
        string_views(r@) == do_commands(string_views(command@), items@),
{
    let tpl = join_strings(command, " ");
    proof {
        reveal_strlit(" ");
        assert(" "@ =~= seq![' ']);
    }
    let mut r: Vec<String> = Vec::new();
    let n = items.len();
    for k in 0..n
        invariant
            n == items@.len(),
            tpl@ == join(string_views(command@), seq![' ']),
            r@.len() == k,
            string_views(r@) == do_commands(string_views(command@), items@).take(k as int),
    {
        proof {
            reveal_strlit("{}");
        }
        let x = replace_all(tpl.as_str(), "{}", items[k].raw.as_str());
        let ghost before = r@;
        r.push(x);
        let ghost dc = do_commands(string_views(command@), items@);
        assert forall|j: int| 0 <= j < k + 1 implies #[trigger] string_views(r@)[j] == dc.take(k + 1)[j] by {
            if j < k {
                assert(r@[j] == before[j]);
                assert(string_views(before)[j] == dc.take(k as int)[j]);
            }
        }
        assert(string_views(r@) =~= dc.take(k + 1));
    }
    assert(do_commands(string_views(command@), items@).take(n as int) =~= do_commands(
        string_views(command@),
        items@,
    ));
    r
}

// ───────────────────────────── diff ─────────────────────────────

/// Whether some item has raw text `raw`.
pub open spec fn has_raw(items: Seq<Item>, raw: Seq<char>) -> bool {
    exists|j: int| 0 <= j < items.len() && (#[trigger] items[j]).raw@ == raw
}

/// The labels of the items of `from` whose raw text no item of `against`
/// has, one per raw text (its first item's), in order.
pub open spec fn fresh_labels(from: Seq<Item>, against: Seq<Item>) -> Seq<Seq<char>>
    decreases from.len(),
{
    if from.len() == 0 {
        Seq::empty()
    } else {
        let r = fresh_labels(from.drop_last(), against);
        let x = from.last();
        if has_raw(against, x.raw@) || has_raw(from.drop_last(), x.raw@) {
            r
        } else {
            r.push(x.label@)
        }
    }
}

/// What changed between two listings: the labels of items gone since the
/// previous one, and of items new in the current one.
pub struct Changes {
    pub removed: Vec<String>,
    pub added: Vec<String>,
}

/// Whether some item of `items` has the raw text `raw`.
fn contains_raw(items: &Vec<Item>, upto: usize, raw: &str) -> (r: bool)
    requires
        upto <= items@.len(),
    ensures
        r == has_raw(items@.take(upto as int), raw@),
{
    for j in 0..upto
        invariant
            upto <= items@.len(),
            forall|q: int| 0 <= q < j ==> items@[q].raw@ != raw@,
    {
        if str_eq(items[j].raw.as_str(), raw) {
            assert(items@.take(upto as int)[j as int] == items@[j as int]);
            return true;
        }
    }
    proof {
        if has_raw(items@.take(upto as int), raw@) {
            let j = choose|j: int| 0 <= j < upto && (#[trigger] items@.take(upto as int)[j]).raw@ == raw@;
            assert(items@.take(upto as int)[j] == items@[j]);
        }
    }
    false
}

/// The labels of items of `from` new against `against`.
fn fresh(from: &Vec<Item>, against: &Vec<Item>) -> (r: Vec<String>)
    ensures
        string_views(r@) == fresh_labels(from@, against@),
{
    let mut r: Vec<String> = Vec::new();
    let n = from.len();
    for i in 0..n
        invariant
            n == from@.len(),
            string_views(r@) == fresh_labels(from@.take(i as int), against@),
    {
        assert(from@.take(i + 1).drop_last() =~= from@.take(i as int));
        assert(from@.take(i + 1).last() == from@[i as int]);
        assert(against@.take(against@.len() as int) =~= against@);
        let raw = from[i].raw.as_str();
        let seen_against = contains_raw(against, against.len(), raw);
        let seen_before = contains_raw(from, i, raw);
        if !seen_against && !seen_before {
            let ghost before = r@;
            r.push(from[i].label.clone());
            assert(string_views(r@) =~= string_views(before).push(from@[i as int].label@));
        }
    }
    assert(from@.take(n as int) =~= from@);
    r
}

/// The changes from the previous index to the current one.
pub fn diff_indexes(current: &Index, previous: &Index) -> (r: Changes)
    ensures
        string_views(r.removed@) == fresh_labels(previous.items@, current.items@),
        string_views(r.added@) == fresh_labels(current.items@, previous.items@),
{
    Changes { removed: fresh(&previous.items, &current.items), added: fresh(&current.items, &previous.items) }
}

// ───────────────────────────── building an index ─────────────────────────────

/// The items whose label the pattern matches, in order.
pub open spec fn label_matched(items: Seq<Item>, pattern: Seq<char>) -> Seq<Item>
    decreases items.len(),
{
    if items.len() == 0 {
        Seq::empty()
    } else if glob_matches(pattern, items.last().label@) {
        label_matched(items.drop_last(), pattern).push(items.last())
    } else {
        label_matched(items.drop_last(), pattern)
    }
}

/// The error of a pattern that is not a glob.
pub open spec fn bad_glob_message(pattern: Seq<char>) -> Seq<char> {
    "Invalid glob pattern: "@ + pattern
}

/// The items whose label a filter matches.
fn keep_matching(items: Vec<Item>, f: &LabelFilter) -> (r: Vec<Item>)
    ensures
        r@ == label_matched(items@, f.pattern()),
{
    let ghost orig = items@;
    let mut rest = items;
    let mut out: Vec<Item> = Vec::new();
    let n = rest.len();
    assert(orig.skip(0) == orig);
    for i in 0..n
        invariant
            n == orig.len(),
            rest@ == orig.skip(i as int),
            out@ == label_matched(orig.take(i as int), f.pattern()),
    {
        let it = rest.remove(0);
        assert(it == orig[i as int]);
        assert(rest@ =~= orig.skip(i + 1));
        assert(orig.take(i + 1).drop_last() =~= orig.take(i as int));
        if f.is_match(it.label.as_str()) {
            out.push(it);
        }
    }
    assert(orig.take(n as int) =~= orig);
    out
}

proof fn lemma_label_matched_len(items: Seq<Item>, pattern: Seq<char>)
    ensures
        label_matched(items, pattern).len() <= items.len(),
    decreases items.len(),
{
    if items.len() > 0 {
        lemma_label_matched_len(items.drop_last(), pattern);
    }
}

/// A provider's listing made an index: items in display order, filtered by
/// label when a pattern is given, then numbered 1, 2, 3, ...
pub fn build_index(provider: &str, items: Vec<Item>, filter: Option<&str>) -> (r: Result<Index, IxError>)
    requires
        items@.len() < usize::MAX,
        filter matches Some(p) ==> p@.len() <= GLOB_MAX_CHARS,
    ensures
        match filter {
            None => (r matches Ok(ix) && ix.provider@ == provider@ && ix.items@
                == with_sequential_slots(regrouped(items@))),
            Some(p) => if glob_accepts(p@) {
                (r matches Ok(ix) && ix.provider@ == provider@ && ix.items@ == with_sequential_slots(
                    label_matched(regrouped(items@), p@),
                ))
            } else {
                (r matches Err(e) && e matches IxError::Other(m) && m@ == bad_glob_message(p@))
            },
        },
{
    let ordered = reorder_by_group(items);
    proof {
        crate::grouping::lemma_regrouped_len(items@);
    }
    let kept = match filter {
        Some(p) => match LabelFilter::new(p) {
            Some(f) => {
                proof {
                    lemma_label_matched_len(ordered@, f.pattern());
                }
                keep_matching(ordered, &f)
            },
            None => {
                let mut m = String::from_str("Invalid glob pattern: ");
                m.append(p);
                return Err(IxError::Other(m));
            },
        },
        None => ordered,
    };
    let numbered = assign_slots(kept);
    Ok(Index::new(provider, numbered))
}

// ───────────────────────────── choosing a provider ─────────────────────────────

/// The providers `ix` chooses between when given nothing to do.
#[derive(Debug, Clone, Copy, PartialEq, Eq, Structural)]
pub enum AutoProvider {
    GitStatus,
    Files,
}

/// The git status inside a repository, else the directory's files.
pub fn auto_provider(in_repository: bool) -> (r: AutoProvider)
    ensures
        r == (if in_repository {
            AutoProvider::GitStatus
        } else {
            AutoProvider::Files
        }),
{
    if in_repository {
        AutoProvider::GitStatus
    } else {
        AutoProvider::Files
    }
}

// ───────────────────────────── laws ─────────────────────────────

/// An index built without a filter answers slot `n` with the `n`-th item
/// in display order, numbered `n`, and refuses a slot of 0 or past the end.
pub proof fn law_index_answers_slots(items: Seq<Item>, slots: Seq<usize>)
    requires
        items.len() < usize::MAX,
    ensures
        resolve_spec(with_sequential_slots(regrouped(items)), slots)
            == crate::selection::numbered_resolution(slots, items.len()),
        forall|n: int|
            1 <= n <= items.len() ==> (#[trigger] with_sequential_slots(regrouped(items))[n - 1]).slot
                == n && with_sequential_slots(regrouped(items))[n - 1].raw == regrouped(items)[n
                - 1].raw,
{
    crate::grouping::lemma_regrouped_len(items);
    crate::selection::law_numbered_resolution(regrouped(items), slots);
}

/// An index built with a filter answers slot `n` with the `n`-th matching
/// item in display order.
pub proof fn law_filtered_index_answers_slots(items: Seq<Item>, pattern: Seq<char>, slots: Seq<usize>)
    requires
        items.len() < usize::MAX,
    ensures
        resolve_spec(with_sequential_slots(label_matched(regrouped(items), pattern)), slots)
            == crate::selection::numbered_resolution(
            slots,
            label_matched(regrouped(items), pattern).len(),
        ),
{
    crate::grouping::lemma_regrouped_len(items);
    lemma_label_matched_len(regrouped(items), pattern);
    crate::selection::law_numbered_resolution(label_matched(regrouped(items), pattern), slots);
}

proof fn lemma_fresh_covered(from: Seq<Item>, against: Seq<Item>)
    requires
        forall|i: int| 0 <= i < from.len() ==> has_raw(against, (#[trigger] from[i]).raw@),
    ensures
        fresh_labels(from, against).len() == 0,
    decreases from.len(),
{
    if from.len() > 0 {
        assert forall|i: int| 0 <= i < from.len() - 1 implies has_raw(
            against,
            (#[trigger] from.drop_last()[i]).raw@,
        ) by {
            assert(from.drop_last()[i] == from[i]);
        }
        lemma_fresh_covered(from.drop_last(), against);
        assert(has_raw(against, from[from.len() - 1].raw@));
    }
}

/// A listing compared with itself shows no change.
pub proof fn law_diff_with_itself(items: Seq<Item>)
    ensures
        fresh_labels(items, items).len() == 0,
{
    assert forall|i: int| 0 <= i < items.len() implies has_raw(items, (#[trigger] items[i]).raw@) by {
    }
    lemma_fresh_covered(items, items);
}

/// An item new in the current listing has a raw text the previous one
/// lacks, and the other way round.
pub proof fn law_diff_reports_only_changes(from: Seq<Item>, against: Seq<Item>)
    ensures
        forall|k: int|
            0 <= k < fresh_labels(from, against).len() ==> exists|i: int|
                0 <= i < from.len() && (#[trigger] fresh_labels(from, against)[k]) == from[i].label@
                    && !has_raw(against, from[i].raw@),
    decreases from.len(),
{
    if from.len() > 0 {
        let p = from.drop_last();
        law_diff_reports_only_changes(p, against);
        let r = fresh_labels(p, against);
        assert forall|k: int| 0 <= k < fresh_labels(from, against).len() implies exists|i: int|
            0 <= i < from.len() && (#[trigger] fresh_labels(from, against)[k]) == from[i].label@
                && !has_raw(against, from[i].raw@) by {
            if k < r.len() {
                assert(fresh_labels(from, against)[k] == r[k]);
                let i = choose|i: int|
                    0 <= i < p.len() && (#[trigger] r[k]) == p[i].label@ && !has_raw(against, p[i].raw@);
                assert(from[i] == p[i]);
            } else {
                assert(fresh_labels(from, against)[k] == from[from.len() - 1].label@);
            }
        }
    }
}

/// Whether no item of `against` has raw text `raw`.
pub open spec fn raw_absent(against: Seq<Item>, raw: Seq<char>) -> bool {
    forall|j: int| 0 <= j < against.len() ==> (#[trigger] against[j]).raw@ != raw
}

proof fn lemma_change_reported(from: Seq<Item>, against: Seq<Item>, i: int)
    requires
        0 <= i < from.len(),
        raw_absent(against, from[i].raw@),
    ensures
        exists|k: int, m: int|
            0 <= k < fresh_labels(from, against).len() && 0 <= m <= i && from[m].raw@ == from[i].raw@
                && fresh_labels(from, against)[k] == from[m].label@,
    decreases from.len(),
{
    let p = from.drop_last();
    let r = fresh_labels(p, against);
    let f = fresh_labels(from, against);
    let x = from.last();
    assert(!has_raw(against, x.raw@) ==> !has_raw(p, x.raw@) ==> f == r.push(x.label@));
    assert(r.len() <= f.len() && forall|k: int| 0 <= k < r.len() ==> f[k] == r[k]);
    if i < p.len() {
        assert(p[i] == from[i]);
        lemma_change_reported(p, against, i);
        let (k, m) = choose|k: int, m: int|
            0 <= k < r.len() && 0 <= m <= i && p[m].raw@ == p[i].raw@ && r[k] == p[m].label@;
        assert(f[k] == r[k] && from[m] == p[m]);
    } else if has_raw(p, x.raw@) {
        let j = choose|j: int| 0 <= j < p.len() && (#[trigger] p[j]).raw@ == x.raw@;
        assert(p[j] == from[j]);
        lemma_change_reported(p, against, j);
        let (k, m) = choose|k: int, m: int|
            0 <= k < r.len() && 0 <= m <= j && p[m].raw@ == p[j].raw@ && r[k] == p[m].label@;
        assert(f[k] == r[k] && from[m] == p[m]);
    } else {
        assert(from[i] == x);
        assert(!has_raw(against, x.raw@)) by {
            if has_raw(against, x.raw@) {
                let j = choose|j: int| 0 <= j < against.len() && (#[trigger] against[j]).raw@ == x.raw@;
                assert(against[j].raw@ != from[i].raw@);
            }
        }
        assert(f[r.len() as int] == from[i].label@);
    }
}

/// Every change is reported: an item of one listing whose raw text no item
/// of the other listing has contributes a label, that of the first item of
/// its listing with the same raw text (so `diff` names the first item of a
/// listing too, and each new raw text once).
pub proof fn law_diff_reports_every_change(from: Seq<Item>, against: Seq<Item>)
    ensures
        forall|i: int|
            #![trigger from[i]]
            0 <= i < from.len() && raw_absent(against, from[i].raw@) ==> exists|k: int, m: int|
                0 <= k < fresh_labels(from, against).len() && 0 <= m <= i && from[m].raw@
                    == from[i].raw@ && fresh_labels(from, against)[k] == from[m].label@,
{
    assert forall|i: int|
        #![trigger from[i]]
        0 <= i < from.len() && raw_absent(against, from[i].raw@) implies exists|k: int, m: int|
            0 <= k < fresh_labels(from, against).len() && 0 <= m <= i && from[m].raw@ == from[i].raw@
                && fresh_labels(from, against)[k] == from[m].label@ by {
        lemma_change_reported(from, against, i);
    }
}

/// The items a filter keeps are exactly the items whose label the glob
/// matches, in their order; the raw text plays no part, so two items with
/// the same label are kept or dropped together.
pub proof fn law_filter_matches_labels(items: Seq<Item>, pattern: Seq<char>)
    ensures
        label_matched(items, pattern) == items.filter(|it: Item| glob_matches(pattern, it.label@)),
        forall|k: int|
            0 <= k < label_matched(items, pattern).len() ==> glob_matches(
                pattern,
                (#[trigger] label_matched(items, pattern)[k]).label@,
            ) && items.contains(label_matched(items, pattern)[k]),
        forall|i: int|
            0 <= i < items.len() && glob_matches(pattern, (#[trigger] items[i]).label@)
                ==> label_matched(items, pattern).contains(items[i]),
        forall|i: int, j: int|
            0 <= i < items.len() && 0 <= j < items.len() && (#[trigger] items[i]).label@ == (
            #[trigger] items[j]).label@ ==> (label_matched(items, pattern).contains(items[i])
                <==> label_matched(items, pattern).contains(items[j])),
    decreases items.len(),
{
    reveal_with_fuel(Seq::filter, 1);
    if items.len() > 0 {
        let p = items.drop_last();
        law_filter_matches_labels(p, pattern);
        let r = label_matched(p, pattern);
        let f = label_matched(items, pattern);
        let x = items.last();
        assert forall|k: int| 0 <= k < f.len() implies glob_matches(pattern, (#[trigger] f[k]).label@)
            && items.contains(f[k]) by {
            if k < r.len() {
                assert(f[k] == r[k]);
                assert(p.contains(r[k]));
                let q = choose|q: int| 0 <= q < p.len() && p[q] == r[k];
                assert(items[q] == p[q]);
            } else {
                assert(f[k] == x);
                assert(items[items.len() - 1] == x);
            }
        }
        assert forall|i: int| 0 <= i < items.len() && glob_matches(pattern, (#[trigger] items[i]).label@)
            implies f.contains(items[i]) by {
            if i < p.len() {
                assert(p[i] == items[i]);
                assert(r.contains(p[i]));
                let q = choose|q: int| 0 <= q < r.len() && r[q] == p[i];
                assert(f[q] == r[q]);
            } else {
                assert(items[i] == x);
                assert(f[f.len() - 1] == x);
            }
        }
        assert forall|i: int| 0 <= i < items.len() implies (f.contains(#[trigger] items[i]) <==> glob_matches(
            pattern,
            items[i].label@,
        )) by {
            if f.contains(items[i]) {
                let q = choose|q: int| 0 <= q < f.len() && f[q] == items[i];
                assert(glob_matches(pattern, f[q].label@));
            }
        }
    }
}

} // verus!
