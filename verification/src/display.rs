//! How an index is shown on the terminal: group headings, then one line per
//! item with its slot, coloured status and label.

use vstd::prelude::*;
use vstd::string::*;

use crate::grouping::{distinct_groups, distinct_groups_of};
use crate::index::{max_slot, Index};
use crate::item::{opt_view, Category, Item};
use crate::text::{
    chars_of, decimal, pad_left, pad_left_string, pad_right, pad_right_string, str_eq, string_of, take_chars,
};
use crate::theme::{cancel_of, color_for_spec, fg_form, sgr, theme_view, StatusTheme, TextAttr, ThemeView};

verus! {

/// The width of the status column. No status is wider than the column:
/// one that would be (such as `sleeping`) is cut to its first
/// `STATUS_WIDTH - 2` characters (`sleep`), so that it still reads as a word
/// and stands apart from the label.
pub const STATUS_WIDTH: usize = 7;

/// A status as its column shows it: exactly `STATUS_WIDTH` characters, the
/// status (cut when too wide) followed by spaces.
pub open spec fn status_cell(status: Seq<char>) -> Seq<char> {
    if status.len() <= STATUS_WIDTH {
        pad_right(status, STATUS_WIDTH as nat)
    } else {
        pad_right(status.take(STATUS_WIDTH - 2), STATUS_WIDTH as nat)
    }
}

/// The status column's cell for a status; see `status_cell`.
pub fn pad_status(status: &str) -> (r: String)
    ensures
        r@ == status_cell(status@),
        r@.len() == STATUS_WIDTH,
{
    if status.unicode_len() <= STATUS_WIDTH {
        pad_right_string(status, STATUS_WIDTH)
    } else {
        let cut = string_of(&take_chars(&chars_of(status), STATUS_WIDTH - 2));
        pad_right_string(cut.as_str(), STATUS_WIDTH)
    }
}

/// `text` drawn with an attribute, then the attribute that ends it.
pub open spec fn attr_text(a: TextAttr, text: Seq<char>) -> Seq<char> {
    "\x1b["@ + sgr(a) + "m"@ + text + "\x1b["@ + sgr(cancel_of(a)) + "m"@
}

/// A slot as shown: `[N]`, the number right-aligned to `width`.
pub open spec fn slot_text(slot: usize, width: nat) -> Seq<char> {
    seq!['['] + pad_left(decimal(slot as nat), width) + seq![']']
}

/// An item's status text and category (empty and unknown when it has none).
pub open spec fn item_status(it: Item) -> (Seq<char>, Category) {
    match it.status {
        Some(s) => (s.text@, s.category),
        None => (Seq::empty(), Category::Unknown),
    }
}

/// The escape a colour may start with: the colour's, or the plain one
/// `crossterm` writes when colours are turned off.
pub open spec fn fg_allowed(t: ThemeView, st: (Seq<char>, Category), fg: Seq<char>) -> bool {
    match color_for_spec(t, st.0, st.1) {
        Some(code) => fg == "\x1b[38;5;"@ + decimal(code as nat) + "m"@ || fg == "\x1b[m"@,
        None => true,
    }
}

/// `text` in a status's colour, started by `fg`: unchanged when the status
/// has no colour.
pub open spec fn styled_text(t: ThemeView, st: (Seq<char>, Category), text: Seq<char>, fg: Seq<char>) -> Seq<
    char,
> {
    match color_for_spec(t, st.0, st.1) {
        Some(_) => fg + text + "\x1b[0m"@,
        None => text,
    }
}

/// An item's line: two spaces, the slot in bold, the padded status in its
/// colour, two spaces and the label.
pub open spec fn item_line(it: Item, width: nat, t: ThemeView, fg: Seq<char>) -> Seq<char> {
    let st = item_status(it);
    "  "@ + attr_text(TextAttr::Bold, slot_text(it.slot, width)) + seq![' '] + styled_text(
        t,
        st,
        status_cell(st.0),
        fg,
    ) + "  "@ + it.label@ + seq!['\n']
}

/// The lines of the items of group `g` among the first `upto` items.
pub open spec fn group_lines(
    items: Seq<Item>,
    g: Option<Seq<char>>,
    width: nat,
    t: ThemeView,
    fgs: Seq<Seq<char>>,
    upto: int,
) -> Seq<char>
    decreases upto,
{
    if upto <= 0 {
        Seq::empty()
    } else {
        group_lines(items, g, width, t, fgs, upto - 1) + if opt_view(items[upto - 1].group) == g {
            item_line(items[upto - 1], width, t, fgs[upto - 1])
        } else {
            Seq::empty()
        }
    }
}

/// A group's heading: a blank line, then the name dimmed and in italics;
/// nothing for items without a group.
pub open spec fn group_header(g: Option<Seq<char>>) -> Seq<char> {
    match g {
        Some(x) => seq!['\n'] + "  "@ + attr_text(TextAttr::Italic, attr_text(TextAttr::Dim, x))
            + seq!['\n'],
        None => Seq::empty(),
    }
}

/// Each group in turn: its heading, then its items' lines.
pub open spec fn groups_text(
    items: Seq<Item>,
    gs: Seq<Option<Seq<char>>>,
    width: nat,
    t: ThemeView,
    fgs: Seq<Seq<char>>,
) -> Seq<char>
    decreases gs.len(),
{
    if gs.len() == 0 {
        Seq::empty()
    } else {
        groups_text(items, gs.drop_last(), width, t, fgs) + group_header(gs.last()) + group_lines(
            items,
            gs.last(),
            width,
            t,
            fgs,
            items.len() as int,
        )
    }
}

/// What is printed of an index, the colour escapes being `fgs`: the groups
/// in first-seen order, slots padded to the widest, and a blank line at the
/// end; a dimmed notice when there is nothing.
pub open spec fn index_text(items: Seq<Item>, t: ThemeView, fgs: Seq<Seq<char>>) -> Seq<char> {
    if items.len() == 0 {
        "  "@ + attr_text(TextAttr::Dim, "(nothing to show)"@) + seq!['\n']
    } else {
        groups_text(items, distinct_groups(items), decimal(max_slot(items)).len(), t, fgs) + seq![
            '\n',
        ]
    }
}

/// Whether two optional groups are the same.
fn same_group(a: &Option<String>, b: &Option<String>) -> (r: bool)
    ensures
        r == (opt_view(*a) == opt_view(*b)),
{
    match (a, b) {
        (Some(x), Some(y)) => str_eq(x.as_str(), y.as_str()),
        (None, None) => true,
        _ => false,
    }
}

/// The text of an index as printed.
pub fn render_index(index: &Index, theme: &StatusTheme) -> (r: String)
    requires
        theme.wf(),
    ensures
        exists|fgs: Seq<Seq<char>>|
            fgs.len() == index.items@.len() && (forall|j: int|
                0 <= j < fgs.len() ==> fg_allowed(
                    theme_view(*theme),
                    item_status(#[trigger] index.items@[j]),
                    fgs[j],
                )) && r@ == index_text(index.items@, theme_view(*theme), fgs),
{
    let items = &index.items;
    let ghost iv = items@;
    let ghost tv = theme_view(*theme);
    let n = items.len();
    if n == 0 {
        let mut r = String::from_str("  ");
        let d = StatusTheme::dimmed("(nothing to show)").render();
        r.append(d.as_str());
        r.push('\n');
        proof {
            assert(index_text(iv, tv, Seq::empty()) == r@);
        }
        return r;
    }
    let width = index.max_slot_width();
    let mut styled: Vec<String> = Vec::new();
    let ghost mut fgs: Seq<Seq<char>> = Seq::empty();
    for j in 0..n
        invariant
            n == iv.len(),
            iv == items@,
            tv == theme_view(*theme),
            theme.wf(),
            styled@.len() == j,
            fgs.len() == j,
            forall|q: int| 0 <= q < j ==> fg_allowed(tv, item_status(#[trigger] iv[q]), fgs[q]),
            forall|q: int|
                0 <= q < j ==> (#[trigger] styled@[q])@ == styled_text(
                    tv,
                    item_status(iv[q]),
                    status_cell(item_status(iv[q]).0),
                    fgs[q],
                ),
    {
        let (text, cat): (&str, Category) = match &items[j].status {
            Some(s) => (s.text.as_str(), s.category),
            None => ("", Category::Unknown),
        };
        proof {
            reveal_strlit("");
        }
        assert((text@, cat) == item_status(iv[j as int]));
        let pad = pad_status(text);
        let (on, s) = theme.colorize(text, cat, pad.as_str()).render_colored();
        let ghost fg: Seq<char> = match color_for_spec(tv, text@, cat) {
            Some(code) => fg_form(code, on),
            None => Seq::empty(),
        };
        let ghost old_styled = styled@;
        styled.push(s);
        proof {
            fgs = fgs.push(fg);
            assert(forall|q: int| 0 <= q < j ==> styled@[q] == old_styled[q]);
        }
    }
    let gs = distinct_groups_of(items);
    let ghost gv = distinct_groups(iv);
    let ghost w = decimal(max_slot(iv)).len();
    let mut r = String::new();
    let ng = gs.len();
    assert(gv.take(0) =~= Seq::<Option<Seq<char>>>::empty());
    for k in 0..ng
        invariant
            n == iv.len() == styled@.len() == fgs.len(),
            iv == items@,
            ng == gs@.len() == gv.len(),
            gv == distinct_groups(iv),
            forall|q: int| 0 <= q < ng ==> opt_view(#[trigger] gs@[q]) == gv[q],
            width == w,
            forall|q: int|
                0 <= q < n ==> (#[trigger] styled@[q])@ == styled_text(
                    tv,
                    item_status(iv[q]),
                    status_cell(item_status(iv[q]).0),
                    fgs[q],
                ),
            r@ == groups_text(iv, gv.take(k as int), w, tv, fgs),
    {
        assert(gv.take(k + 1).drop_last() =~= gv.take(k as int));
        assert(gv.take(k + 1).last() == gv[k as int]);
        let g = &gs[k];
        match g {
            Some(name) => {
                let d = StatusTheme::dimmed(name.as_str()).render();
                let h = StatusTheme::italic(d.as_str()).render();
                r.push('\n');
                r.append("  ");
                r.append(h.as_str());
                r.push('\n');
            },
            None => {},
        }
        assert(r@ == groups_text(iv, gv.take(k as int), w, tv, fgs) + group_header(gv[k as int]));
        let ghost start = r@;
        for j in 0..n
            invariant
                n == iv.len() == styled@.len() == fgs.len(),
                iv == items@,
                width == w,
                opt_view(*g) == gv[k as int],
                forall|q: int|
                    0 <= q < n ==> (#[trigger] styled@[q])@ == styled_text(
                        tv,
                        item_status(iv[q]),
                        status_cell(item_status(iv[q]).0),
                        fgs[q],
                    ),
                r@ == start + group_lines(iv, gv[k as int], w, tv, fgs, j as int),
        {
            let it = &items[j];
            if same_group(&it.group, g) {
                let digits = crate::text::decimal_string(it.slot as u64);
                let mut slot = String::new();
                slot.push('[');
                let padded = pad_left_string(digits.as_str(), width);
                slot.append(padded.as_str());
                slot.push(']');
                let b = StatusTheme::bold(slot.as_str()).render();
                r.append("  ");
                r.append(b.as_str());
                r.push(' ');
                r.append(styled[j].as_str());
                r.append("  ");
                r.append(it.label.as_str());
                r.push('\n');
                assert(r@ == start + group_lines(iv, gv[k as int], w, tv, fgs, j as int) + item_line(
                    iv[j as int],
                    w as nat,
                    tv,
                    fgs[j as int],
                ));
            }
        }
    }
    assert(gv.take(ng as int) =~= gv);
    r.push('\n');
    assert(r@ == index_text(iv, tv, fgs));
    r
}

} // verus!
