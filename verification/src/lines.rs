//! Listing the lines of a text (a file, or standard input): one item per
//! line that is not blank.

use vstd::prelude::*;
use vstd::string::*;

use crate::index::{path_push, push_path};
use crate::item::{item_is, Item};
use crate::provider::{Context, Provider};
use crate::text::{chars_of, string_views, trim, trim_chars};

verus! {

/// The lines that hold something besides whitespace, in order.
pub open spec fn nonblank_lines(lines: Seq<Seq<char>>) -> Seq<Seq<char>>
    decreases lines.len(),
{
    if lines.len() == 0 {
        Seq::empty()
    } else if trim(lines.last()).len() > 0 {
        nonblank_lines(lines.drop_last()).push(lines.last())
    } else {
        nonblank_lines(lines.drop_last())
    }
}

/// `items` are the lines' items: one per non-blank line, raw text and
/// label both the line, slots 1, 2, 3, ... in order.
pub open spec fn are_line_items(items: Seq<Item>, lines: Seq<Seq<char>>) -> bool {
    let nb = nonblank_lines(lines);
    &&& items.len() == nb.len()
    &&& forall|k: int|
        0 <= k < items.len() ==> item_is(#[trigger] items[k], (k + 1) as usize, nb[k], nb[k], None, None)
}

/// One item per non-blank line, raw text and label both the line, slots
/// 1, 2, 3, ... in order.
pub fn line_items(lines: &[String]) -> (r: Vec<Item>)
    ensures
        are_line_items(r@, string_views(lines@)),
{
    let ghost lv = string_views(lines@);
    let mut items: Vec<Item> = Vec::new();
    let n = lines.len();
    assert(lv.take(0) =~= Seq::<Seq<char>>::empty());
    for i in 0..n
        invariant
            n == lines@.len(),
            lv == string_views(lines@),
            are_line_items(items@, lv.take(i as int)),
            items@.len() <= i,
    {
        let ghost before = lv.take(i as int);
        assert(lv.take(i + 1).drop_last() =~= before);
        assert(lv.take(i + 1).last() == lines@[i as int]@);
        let c = chars_of(lines[i].as_str());
        let t = trim_chars(&c);
        if t.len() > 0 {
            let slot = items.len() + 1;
            let it = Item::new(slot, lines[i].as_str(), lines[i].as_str());
            let ghost old_items = items@;
            items.push(it);
            proof {
                let nb = nonblank_lines(lv.take(i + 1));
                assert(nb == nonblank_lines(before).push(lines@[i as int]@));
                assert forall|k: int| 0 <= k < items@.len() implies item_is(
                    #[trigger] items@[k],
                    (k + 1) as usize,
                    nb[k],
                    nb[k],
                    None,
                    None,
                ) by {
                    if k < old_items.len() {
                        assert(items@[k] == old_items[k]);
                        assert(nb[k] == nonblank_lines(before)[k]);
                    }
                }
            }
        } else {
            assert(nonblank_lines(lv.take(i + 1)) == nonblank_lines(before));
        }
    }
    assert(lv.take(n as int) =~= lv);
    items
}

/// Lines of a file, by its path.
#[derive(Debug, Clone)]
pub struct CatProvider {
    pub file: String,
}

impl CatProvider {
    pub fn new(file: &str) -> (r: CatProvider)
        ensures
            r.file@ == file@,
    {
        CatProvider { file: String::from_str(file) }
    }

    /// The file to read: the path as given when absolute, else under the
    /// context's directory.
    pub fn target_path(&self, ctx: &Context) -> (r: String)
        ensures
            r@ == path_push(ctx.cwd@, self.file@),
    {
        let mut p = ctx.cwd.clone();
        push_path(&mut p, self.file.as_str());
        p
    }
}

impl Provider for CatProvider {
    fn name(&self) -> (r: &str)
        ensures
            r@ == "cat"@,
    {
        "cat"
    }

    fn preview_cmd(&self, item: &Item) -> (r: Option<String>)
        ensures
            r is None,
    {
        None
    }
}

/// Lines read from standard input.
#[derive(Debug, Clone, Copy)]
pub struct StdinProvider;

impl StdinProvider {
    pub fn new() -> (r: StdinProvider) {
        StdinProvider
    }

    /// Never chosen by detection: piped input is recognised by the caller.
    pub fn detect(&self, ctx: &Context) -> (r: bool)
        ensures
            !r,
    {
        false
    }
}

impl Default for StdinProvider {
    fn default() -> (r: StdinProvider) {
        StdinProvider::new()
    }
}

impl Provider for StdinProvider {
    fn name(&self) -> (r: &str)
        ensures
            r@ == "stdin"@,
    {
        "stdin"
    }

    fn preview_cmd(&self, item: &Item) -> (r: Option<String>)
        ensures
            r is None,
    {
        None
    }
}

} // verus!
