//! The interactive picker's state: what is visible, what the cursor is on,
//! what was toggled, and what confirming gives back.

use vstd::prelude::*;
use vstd::string::*;

use crate::index::Index;
use crate::item::Item;
use crate::selection::{expand, parse_spec, resolve_spec, Selection};
use crate::display::{item_status, slot_text};
use crate::index::max_slot;
use crate::item::Category;
use crate::text::{chars_of, decimal, decimal_string, pad_left_string, views, words, words_of};

verus! {

/// The list cursor: the highlighted row, if any.
#[derive(Debug, Clone, Copy)]
pub struct ListState {
    pub cursor: Option<usize>,
}

impl ListState {
    /// No row highlighted.
    pub fn new() -> (r: ListState)
        ensures
            r.cursor is None,
    {
        ListState { cursor: None }
    }

    /// The highlighted row.
    pub fn selected(&self) -> (r: Option<usize>)
        ensures
            r == self.cursor,
    {
        self.cursor
    }

    /// Highlights a row (or none).
    pub fn select(&mut self, row: Option<usize>)
        ensures
            final(self).cursor == row,
    {
        self.cursor = row;
    }
}

/// The picker over one index.
pub struct App<'a> {
    pub index: &'a Index,
    /// What the user typed.
    pub input: String,
    /// Positions in `index.items` of the rows shown, in order.
    pub visible: Vec<usize>,
    /// The positions the typed selection names, when it names some.
    pub resolved: Option<Vec<usize>>,
    /// Positions toggled with Space, in toggling order.
    pub selected: Vec<usize>,
    pub list_state: ListState,
    /// Each slot's position in `index.items` (the last item carrying it).
    pub item_positions: std::collections::HashMap<usize, usize>,
}

/// The position of the last item carrying slot `slot`.
pub open spec fn last_slot_position(items: Seq<Item>, slot: usize) -> Option<int>
    decreases items.len(),
{
    if items.len() == 0 {
        None
    } else if items.last().slot == slot {
        Some(items.len() - 1)
    } else {
        last_slot_position(items.drop_last(), slot)
    }
}

pub proof fn lemma_last_slot_position(items: Seq<Item>, slot: usize)
    ensures
        last_slot_position(items, slot) matches Some(p) ==> 0 <= p < items.len()
            && items[p].slot == slot,
        last_slot_position(items, slot) is None ==> forall|j: int|
            0 <= j < items.len() ==> items[j].slot != slot,
    decreases items.len(),
{
    if items.len() > 0 {
        lemma_last_slot_position(items.drop_last(), slot);
        assert forall|j: int| 0 <= j < items.len() - 1 implies items.drop_last()[j] == items[j] by {}
    }
}

/// Each slot's position: that of the last item carrying it.
pub open spec fn slot_positions(items: Seq<Item>) -> Map<usize, usize> {
    Map::new(
        |s: usize| last_slot_position(items, s) is Some,
        |s: usize| last_slot_position(items, s)->0 as usize,
    )
}

/// The map from each slot to its position among the items.
fn positions_by_slot(items: &Vec<Item>) -> (r: std::collections::HashMap<usize, usize>)
    ensures
        r@ == slot_positions(items@),
{
    broadcast use vstd::std_specs::hash::group_hash_axioms;

    let mut m: std::collections::HashMap<usize, usize> = std::collections::HashMap::new();
    let n = items.len();
    assert(m@ =~= slot_positions(items@.take(0)));
    for i in 0..n
        invariant
            n == items@.len(),
            m@ == slot_positions(items@.take(i as int)),
    {
        let ghost before = items@.take(i as int);
        let ghost after = items@.take(i + 1);
        assert(after.drop_last() =~= before);
        assert(after.last() == items@[i as int]);
        m.insert(items[i].slot, i);
        proof {
            assert forall|s: usize| #[trigger] last_slot_position(after, s) == (if s == items@[i as int].slot {
                Some(i as int)
            } else {
                last_slot_position(before, s)
            }) by {}
            assert(m@ =~= slot_positions(after));
        }
    }
    assert(items@.take(n as int) =~= items@);
    m
}

/// The rows a typed selection shows: the positions of the items it names
/// (each item found again by its slot), or none when it does not parse or
/// names a slot no item carries.
pub open spec fn typed_positions(items: Seq<Item>, input: Seq<char>) -> Option<Seq<usize>> {
    match parse_spec(words(input)) {
        Err(_) => None,
        Ok(sels) => match resolve_spec(items, expand(sels)) {
            Err(_) => None,
            Ok(ix) => Some(
                Seq::new(
                    ix.len(),
                    |k: int| last_slot_position(items, items[ix[k]].slot)->0 as usize,
                ),
            ),
        },
    }
}

/// The positions of all items, in order.
pub open spec fn all_positions(n: nat) -> Seq<usize> {
    Seq::new(n, |i: int| i as usize)
}

/// A character's code, an ASCII capital taken as its small letter.
pub open spec fn folded(c: char) -> u32 {
    let u = c as u32;
    if 65 <= u <= 90 {
        (u + 32) as u32
    } else {
        u
    }
}

/// Whether the characters of `query` occur in `text` in the same order,
/// not necessarily side by side, ASCII letters compared regardless of case.
pub open spec fn fuzzy_match(text: Seq<char>, query: Seq<char>) -> bool
    decreases text.len(),
{
    if query.len() == 0 {
        true
    } else if text.len() == 0 {
        false
    } else if folded(text[0]) == folded(query[0]) {
        fuzzy_match(text.drop_first(), query.drop_first())
    } else {
        fuzzy_match(text.drop_first(), query)
    }
}

/// Whether every word of the search matches the label.
pub open spec fn fuzzy_all(label: Seq<char>, ws: Seq<Seq<char>>) -> bool {
    forall|k: int| 0 <= k < ws.len() ==> fuzzy_match(label, #[trigger] ws[k])
}

/// The positions, in order, of the first `n` items whose label every word
/// of the search matches.
pub open spec fn fuzzy_positions(items: Seq<Item>, ws: Seq<Seq<char>>, n: int) -> Seq<usize>
    decreases n,
{
    if n <= 0 {
        Seq::empty()
    } else if fuzzy_all(items[n - 1].label@, ws) {
        fuzzy_positions(items, ws, n - 1).push((n - 1) as usize)
    } else {
        fuzzy_positions(items, ws, n - 1)
    }
}

proof fn lemma_fuzzy_positions_in(items: Seq<Item>, ws: Seq<Seq<char>>, n: int)
    requires
        n <= items.len(),
    ensures
        positions_in(fuzzy_positions(items, ws, n), items.len()),
    decreases n,
{
    if n > 0 {
        lemma_fuzzy_positions_in(items, ws, n - 1);
    }
}

/// The rows typed input shows: when it reads as a selection, the items it
/// names (none when it names a slot no item carries); otherwise it is a
/// fuzzy search, each of its words matched against the labels.
pub open spec fn shown_positions(items: Seq<Item>, input: Seq<char>) -> Seq<usize> {
    match parse_spec(words(input)) {
        Err(_) => fuzzy_positions(items, words(input), items.len() as int),
        Ok(_) => match typed_positions(items, input) {
            Some(p) => p,
            None => Seq::empty(),
        },
    }
}

fn fold_char(c: char) -> (r: u32)
    ensures
        r == folded(c),
{
    let u = c as u32;
    if 65 <= u && u <= 90 {
        u + 32
    } else {
        u
    }
}

/// Whether `query` occurs in `text` as a fuzzy search reads it.
fn fuzzy_match_chars(text: &[char], query: &[char]) -> (r: bool)
    ensures
        r == fuzzy_match(text@, query@),
{
    let n = text.len();
    let m = query.len();
    let mut i: usize = 0;
    let mut j: usize = 0;
    assert(text@.skip(0) =~= text@);
    assert(query@.skip(0) =~= query@);
    while i < n
        invariant
            i <= n == text@.len(),
            j <= m == query@.len(),
            fuzzy_match(text@, query@) == fuzzy_match(text@.skip(i as int), query@.skip(j as int)),
        decreases n - i,
    {
        if j == m {
            return true;
        }
        assert(text@.skip(i as int).drop_first() =~= text@.skip(i + 1));
        assert(query@.skip(j as int).drop_first() =~= query@.skip(j + 1));
        assert(text@.skip(i as int)[0] == text@[i as int]);
        assert(query@.skip(j as int)[0] == query@[j as int]);
        if fold_char(text[i]) == fold_char(query[j]) {
            j = j + 1;
        }
        i = i + 1;
    }
    j == m
}

/// The positions of the items whose label every word of the search matches.
fn fuzzy_positions_of(items: &Vec<Item>, ws: &Vec<Vec<char>>) -> (r: Vec<usize>)
    ensures
        r@ == fuzzy_positions(items@, views(ws@), items@.len() as int),
{
    let n = items.len();
    let m = ws.len();
    let ghost wv = views(ws@);
    let mut out: Vec<usize> = Vec::new();
    for i in 0..n
        invariant
            n == items@.len(),
            m == ws@.len() == wv.len(),
            wv == views(ws@),
            out@ == fuzzy_positions(items@, wv, i as int),
    {
        let label = chars_of(items[i].label.as_str());
        let mut all = true;
        for k in 0..m
            invariant
                m == ws@.len() == wv.len(),
                wv == views(ws@),
                label@ == items@[i as int].label@,
                all <==> forall|q: int| 0 <= q < k ==> fuzzy_match(label@, #[trigger] wv[q]),
        {
            assert(wv[k as int] == ws@[k as int]@);
            if !fuzzy_match_chars(&label, &ws[k]) {
                all = false;
            }
        }
        if all {
            out.push(i);
        }
    }
    out
}

/// The key toggled raws are ordered by: the position of the item found
/// again by the slot of the first item with that raw value.
pub open spec fn raw_key(items: Seq<Item>, raw: Seq<char>) -> int {
    match first_raw_position(items, raw) {
        Some(i) => match last_slot_position(items, items[i].slot) {
            Some(p) => p,
            None => usize::MAX as int,
        },
        None => usize::MAX as int,
    }
}

/// The position of the first item whose raw value is `raw`.
pub open spec fn first_raw_position(items: Seq<Item>, raw: Seq<char>) -> Option<int>
    decreases items.len(),
{
    if items.len() == 0 {
        None
    } else if items[0].raw@ == raw {
        Some(0)
    } else {
        match first_raw_position(items.drop_first(), raw) {
            Some(i) => Some(i + 1),
            None => None,
        }
    }
}

/// `x` inserted after every element whose key is not greater.
pub open spec fn insert_sorted(s: Seq<(int, Seq<char>)>, x: (int, Seq<char>)) -> Seq<
    (int, Seq<char>),
>
    decreases s.len(),
{
    if s.len() == 0 {
        seq![x]
    } else if s.last().0 <= x.0 {
        s.push(x)
    } else {
        insert_sorted(s.drop_last(), x).push(s.last())
    }
}

/// A stable sort by key (insertion sort).
pub open spec fn stable_sort(s: Seq<(int, Seq<char>)>) -> Seq<(int, Seq<char>)>
    decreases s.len(),
{
    if s.len() == 0 {
        Seq::empty()
    } else {
        insert_sorted(stable_sort(s.drop_last()), s.last())
    }
}

/// The toggled raws with their keys, in toggling order.
pub open spec fn keyed_selection(items: Seq<Item>, selected: Seq<usize>) -> Seq<(int, Seq<char>)> {
    Seq::new(
        selected.len(),
        |k: int| (raw_key(items, items[selected[k] as int].raw@), items[selected[k] as int].raw@),
    )
}

/// What confirming returns: the raws the typed selection names; else the
/// toggled raws ordered by item position; else the raw under the cursor;
/// else nothing.
pub open spec fn confirm_spec(app: App) -> Seq<Seq<char>> {
    let items = app.index.items@;
    match app.resolved {
        Some(ix) => Seq::new(ix@.len(), |k: int| items[ix@[k] as int].raw@),
        None => if app.selected@.len() > 0 {
            stable_sort(keyed_selection(items, app.selected@)).map_values(
                |p: (int, Seq<char>)| p.1,
            )
        } else {
            match app.list_state.cursor {
                Some(cur) => if cur < app.visible@.len() {
                    seq![items[app.visible@[cur as int] as int].raw@]
                } else {
                    Seq::empty()
                },
                None => Seq::empty(),
            }
        },
    }
}

/// The view of an optional position list.
pub open spec fn opt_positions(o: Option<Vec<usize>>) -> Option<Seq<usize>> {
    match o {
        Some(v) => Some(v@),
        None => None,
    }
}

/// The cursor's row, the first when there is none.
pub open spec fn cursor_row(cursor: Option<usize>) -> int {
    match cursor {
        Some(c) => c as int,
        None => 0,
    }
}

/// The cursor after moving up over `n` rows: one row up unless on the
/// first row or there are no rows.
pub open spec fn cursor_up(cursor: Option<usize>, n: nat) -> Option<usize> {
    if n > 0 && cursor_row(cursor) > 0 {
        Some((cursor_row(cursor) - 1) as usize)
    } else {
        cursor
    }
}

/// The cursor after moving down over `n` rows: one row down unless on the
/// last row.
pub open spec fn cursor_down(cursor: Option<usize>, n: nat) -> Option<usize> {
    if cursor_row(cursor) + 1 < n {
        Some((cursor_row(cursor) + 1) as usize)
    } else {
        cursor
    }
}

/// Moving the cursor keeps it on a row, and moving down then up comes back.
pub proof fn law_cursor_stays_on_rows(cursor: Option<usize>, n: nat)
    requires
        cursor matches Some(c) && c < n,
        n <= usize::MAX,
    ensures
        cursor_up(cursor, n) matches Some(c) && c < n,
        cursor_down(cursor, n) matches Some(c) && c < n,
        cursor_row(cursor) + 1 < n ==> cursor_up(cursor_down(cursor, n), n) == cursor,
        cursor_row(cursor) > 0 ==> cursor_down(cursor_up(cursor, n), n) == cursor,
{
}

/// `after` is `before` with `idx` toggled: its first occurrence removed if
/// it occurs, else appended.
pub open spec fn toggled(before: Seq<usize>, idx: usize, after: Seq<usize>) -> bool {
    if before.contains(idx) {
        exists|p: int|
            0 <= p < before.len() && before[p] == idx && (forall|j: int|
                0 <= j < p ==> before[j] != idx) && after == before.remove(p)
    } else {
        after == before.push(idx)
    }
}

/// Toggling an item that is not toggled, then toggling it again, leaves
/// the toggled items as they were.
pub proof fn law_toggle_twice(s: Seq<usize>, idx: usize, s1: Seq<usize>, s2: Seq<usize>)
    requires
        !s.contains(idx),
        toggled(s, idx, s1),
        toggled(s1, idx, s2),
    ensures
        s2 == s,
{
    assert(s1 == s.push(idx));
    assert(s1[s.len() as int] == idx);
    assert(s1.contains(idx));
    let p = choose|p: int|
        0 <= p < s1.len() && s1[p] == idx && (forall|j: int| 0 <= j < p ==> s1[j] != idx) && s2
            == s1.remove(p);
    if p < s.len() {
        assert(s[p] == idx);
    }
    assert(p == s.len());
    assert(s1.remove(p) =~= s);
}

/// Every position in `s` names an item.
pub open spec fn positions_in(s: Seq<usize>, n: nat) -> bool {
    forall|i: int| 0 <= i < s.len() ==> #[trigger] s[i] < n
}

impl<'a> App<'a> {
    /// Every position the picker holds names an item of the index.
    pub open spec fn wf(&self) -> bool {
        let n = self.index.items@.len();
        &&& positions_in(self.visible@, n)
        &&& positions_in(self.selected@, n)
        &&& (self.resolved matches Some(r) ==> positions_in(r@, n))
        &&& self.item_positions@ == slot_positions(self.index.items@)
    }

    /// The position of the last item carrying `slot`, looked up in
    /// `item_positions`.
    fn position_of(&self, slot: usize) -> (r: Option<usize>)
        requires
            self.wf(),
        ensures
            r matches Some(p) ==> last_slot_position(self.index.items@, slot) == Some(p as int),
            r is None ==> last_slot_position(self.index.items@, slot) is None,
    {
        broadcast use vstd::std_specs::hash::group_hash_axioms;

        let n = self.index.items.len();
        proof {
            lemma_last_slot_position(self.index.items@, slot);
        }
        match self.item_positions.get(&slot) {
            Some(p) => {
                assert(self.item_positions@.contains_key(slot) && self.item_positions@[slot] == *p);
                let ghost q = last_slot_position(self.index.items@, slot)->0;
                assert(0 <= q < n);
                assert(*p == q as usize);
                Some(*p)
            },
            None => {
                assert(!self.item_positions@.contains_key(slot));
                None
            },
        }
    }

    /// All items visible, nothing typed or toggled, the cursor on the first row.
    pub fn new(index: &'a Index) -> (r: App<'a>)
        ensures
            r.wf(),
            r.index == index,
            r.input@.len() == 0,
            r.visible@ == all_positions(index.items@.len()),
            r.resolved is None,
            r.selected@.len() == 0,
            r.list_state.cursor == (if index.items@.len() > 0 {
                Some(0usize)
            } else {
                None
            }),
    {
        let n = index.items.len();
        let mut visible: Vec<usize> = Vec::new();
        for i in 0..n
            invariant
                visible@ == all_positions(i as nat),
        {
            visible.push(i);
            assert(visible@ =~= all_positions((i + 1) as nat));
        }
        let mut list_state = ListState::new();
        if n > 0 {
            list_state.select(Some(0));
        }
        App {
            index,
            input: String::new(),
            visible,
            resolved: None,
            selected: Vec::new(),
            list_state,
            item_positions: positions_by_slot(&index.items),
        }
    }

    /// The items of the index.
    pub fn items(&self) -> (r: &[Item])
        ensures
            r@ == self.index.items@,
    {
        self.index.items.as_slice()
    }

    /// Recomputes what is visible from the input: everything when it is
    /// empty; the items the typed selection names when it reads as one
    /// (none when it names a slot no item carries); else the items whose
    /// label every typed word fuzzily matches. The cursor returns to the
    /// first row when it falls past the end.
    pub fn update_visible(&mut self)
        requires
            old(self).wf(),
        ensures
            final(self).wf(),
            final(self).index == old(self).index,
            final(self).input == old(self).input,
            final(self).selected == old(self).selected,
            old(self).input@.len() == 0 ==> final(self).visible@ == all_positions(
                old(self).index.items@.len(),
            ) && final(self).resolved is None && final(self).list_state == old(self).list_state,
            old(self).input@.len() > 0 ==> {
                let t = typed_positions(old(self).index.items@, old(self).input@);
                &&& opt_positions(final(self).resolved) == t
                &&& final(self).visible@ == shown_positions(old(self).index.items@, old(self).input@)
                &&& final(self).list_state.cursor == (if final(self).visible@.len() > 0 && (
                match old(self).list_state.cursor {
                    Some(c) => c,
                    None => 0,
                }) >= final(self).visible@.len() {
                    Some(0usize)
                } else {
                    old(self).list_state.cursor
                })
            },
    {
        let n = self.index.items.len();
        if self.input.unicode_len() == 0 {
            let mut visible: Vec<usize> = Vec::new();
            for i in 0..n
                invariant
                    n == self.index.items@.len(),
                    visible@ == all_positions(i as nat),
            {
                visible.push(i);
                assert(visible@ =~= all_positions((i + 1) as nat));
            }
            self.visible = visible;
            self.resolved = None;
            return;
        }
        let input = chars_of(self.input.as_str());
        let args = words_of(&input);
        let ghost items = self.index.items@;
        match Selection::parse_chars(&args) {
            Ok(sel) => {
                match sel.resolve(self.index) {
                    Ok(found) => {
                        let ghost ix = resolve_spec(items, expand(sel.0@))->Ok_0;
                        let m = found.len();
                        let mut positions: Vec<usize> = Vec::new();
                        for k in 0..m
                            invariant
                                m == found@.len() == ix.len(),
                                items == self.index.items@,
                                self.wf(),
                                forall|q: int| 0 <= q < ix.len() ==> *found@[q] == items[ix[q]],
                                forall|q: int| 0 <= q < ix.len() ==> 0 <= #[trigger] ix[q] < items.len(),
                                positions@.len() == k,
                                forall|q: int|
                                    0 <= q < k ==> #[trigger] positions@[q] == last_slot_position(
                                        items,
                                        items[ix[q]].slot,
                                    )->0 as usize,
                                positions_in(positions@, items.len()),
                        {
                            let slot = found[k].slot;
                            proof {
                                lemma_last_slot_position(items, slot);
                                crate::selection::lemma_slot_position(items, slot);
                            }
                            match self.position_of(slot) {
                                Some(p) => {
                                    positions.push(p);
                                },
                                None => {
                                    assert(items[ix[k as int]].slot == slot);
                                    assert(false);
                                },
                            }
                        }
                        self.visible = positions.clone();
                        self.resolved = Some(positions);
                        assert(self.visible@ =~= typed_positions(items, input@)->Some_0);
                    },
                    Err(_) => {
                        self.visible = Vec::new();
                        self.resolved = None;
                    },
                }
            },
            Err(_) => {
                let found = fuzzy_positions_of(&self.index.items, &args);
                proof {
                    lemma_fuzzy_positions_in(items, views(args@), items.len() as int);
                }
                self.visible = found;
                self.resolved = None;
            },
        }
        if self.visible.len() > 0 {
            let cur = match self.list_state.selected() {
                Some(c) => c,
                None => 0,
            };
            if cur >= self.visible.len() {
                self.list_state.select(Some(0));
            }
        }
    }

    /// Moves the cursor one row up, stopping at the first row.
    pub fn move_up(&mut self)
        ensures
            final(self).index == old(self).index,
            final(self).input == old(self).input,
            final(self).visible == old(self).visible,
            final(self).resolved == old(self).resolved,
            final(self).selected == old(self).selected,
            final(self).list_state.cursor == cursor_up(old(self).list_state.cursor, old(self).visible@.len()),
    {
        if self.visible.len() == 0 {
            return;
        }
        let cur = match self.list_state.selected() {
            Some(c) => c,
            None => 0,
        };
        if cur > 0 {
            self.list_state.select(Some(cur - 1));
        }
    }

    /// Moves the cursor one row down, stopping at the last visible row.
    pub fn move_down(&mut self)
        ensures
            final(self).index == old(self).index,
            final(self).input == old(self).input,
            final(self).visible == old(self).visible,
            final(self).resolved == old(self).resolved,
            final(self).selected == old(self).selected,
            final(self).list_state.cursor == cursor_down(old(self).list_state.cursor, old(self).visible@.len()),
    {
        if self.visible.len() == 0 {
            return;
        }
        let cur = match self.list_state.selected() {
            Some(c) => c,
            None => 0,
        };
        if cur < self.visible.len() - 1 {
            self.list_state.select(Some(cur + 1));
        }
    }

    /// Toggles the item under the cursor: removed from the toggled items if
    /// it is among them, appended otherwise.
    pub fn toggle_current(&mut self)
        requires
            old(self).wf(),
        ensures
            final(self).wf(),
            final(self).index == old(self).index,
            final(self).input == old(self).input,
            final(self).visible == old(self).visible,
            final(self).resolved == old(self).resolved,
            final(self).list_state == old(self).list_state,
            (match old(self).list_state.cursor {
                Some(cur) => cur < old(self).visible@.len(),
                None => false,
            }) ==> {
                let idx = old(self).visible@[old(self).list_state.cursor->0 as int];
                toggled(old(self).selected@, idx, final(self).selected@)
            },
            !(match old(self).list_state.cursor {
                Some(cur) => cur < old(self).visible@.len(),
                None => false,
            }) ==> final(self).selected == old(self).selected,
    {
        match self.list_state.selected() {
            Some(cur) => {
                if cur < self.visible.len() {
                    let item_idx = self.visible[cur];
                    let n = self.selected.len();
                    let mut p: usize = 0;
                    while p < n
                        invariant
                            n == self.selected@.len(),
                            p <= n,
                            forall|j: int| 0 <= j < p ==> self.selected@[j] != item_idx,
                        ensures
                            p <= n,
                            forall|j: int| 0 <= j < p ==> self.selected@[j] != item_idx,
                            p < n ==> self.selected@[p as int] == item_idx,
                        decreases n - p,
                    {
                        if self.selected[p] == item_idx {
                            break;
                        }
                        p = p + 1;
                    }
                    if p < n {
                        self.selected.remove(p);
                    } else {
                        assert(!self.selected@.contains(item_idx));
                        self.selected.push(item_idx);
                    }
                }
            },
            None => {},
        }
    }

    /// What confirming gives back.
    pub fn confirm(&self) -> (r: Vec<String>)
        requires
            self.wf(),
        ensures
            crate::text::string_views(r@) == confirm_spec(*self),
    {
        let items = self.items();
        match &self.resolved {
            Some(indices) => {
                let m = indices.len();
                let mut out: Vec<String> = Vec::new();
                for k in 0..m
                    invariant
                        m == indices@.len(),
                        items@ == self.index.items@,
                        positions_in(indices@, items@.len()),
                        out@.len() == k,
                        crate::text::string_views(out@) == Seq::new(
                            k as nat,
                            |q: int| items@[indices@[q] as int].raw@,
                        ),
                {
                    let ghost before = out@;
                    let raw = items[indices[k]].raw.clone();
                    out.push(raw);
                    assert(out@[k as int]@ == items@[indices@[k as int] as int].raw@);
                    assert forall|q: int| 0 <= q < k implies out@[q] == before[q] by {}
                    assert forall|q: int| 0 <= q < k + 1 implies #[trigger] crate::text::string_views(out@)[q]
                        == items@[indices@[q] as int].raw@ by {
                        if q < k {
                            assert(crate::text::string_views(before)[q] == before[q]@);
                        }
                    }
                    assert(crate::text::string_views(out@) =~= Seq::new(
                        (k + 1) as nat,
                        |q: int| items@[indices@[q] as int].raw@,
                    ));
                }
                return out;
            },
            None => {},
        }
        if self.selected.len() > 0 {
            return self.sorted_selection();
        }
        match self.list_state.selected() {
            Some(cur) => {
                if cur < self.visible.len() {
                    let mut out: Vec<String> = Vec::new();
                    out.push(items[self.visible[cur]].raw.clone());
                    assert(crate::text::string_views(out@) =~= seq![
                        items@[self.visible@[cur as int] as int].raw@,
                    ]);
                    return out;
                }
            },
            None => {},
        }
        let out: Vec<String> = Vec::new();
        assert(crate::text::string_views(out@) =~= Seq::<Seq<char>>::empty());
        out
    }

    fn sorted_selection(&self) -> (r: Vec<String>)
        requires
            self.wf(),
        ensures
            crate::text::string_views(r@) == stable_sort(
                keyed_selection(self.index.items@, self.selected@),
            ).map_values(|p: (int, Seq<char>)| p.1),
    {
        let items = &self.index.items;
        let n = self.selected.len();
        let ghost ks = keyed_selection(items@, self.selected@);
        let mut sorted: Vec<(usize, String)> = Vec::new();
        assert(ks.take(0) == Seq::<(int, Seq<char>)>::empty());
        for k in 0..n
            invariant
                n == self.selected@.len(),
                items == &self.index.items,
                self.wf(),
                positions_in(self.selected@, items@.len()),
                ks == keyed_selection(items@, self.selected@),
                keyed_view(sorted@) == stable_sort(ks.take(k as int)),
        {
            let raw = items[self.selected[k]].raw.clone();
            let key = key_of_raw(self, raw.as_str());
            assert(ks[k as int] == (key as int, raw@));
            assert(ks.take(k + 1).drop_last() == ks.take(k as int));
            insert_keyed(&mut sorted, key, raw);
        }
        assert(ks.take(n as int) == ks);
        let m = sorted.len();
        let mut out: Vec<String> = Vec::new();
        for j in 0..m
            invariant
                m == sorted@.len(),
                out@.len() == j,
                crate::text::string_views(out@) == keyed_view(sorted@).take(j as int).map_values(
                    |p: (int, Seq<char>)| p.1,
                ),
        {
            let ghost before = out@;
            let raw = sorted[j].1.clone();
            out.push(raw);
            assert(out@[j as int]@ == keyed_view(sorted@)[j as int].1);
            assert forall|q: int| 0 <= q < j implies out@[q] == before[q] by {}
            assert forall|q: int| 0 <= q < j + 1 implies #[trigger] crate::text::string_views(out@)[q]
                == keyed_view(sorted@)[q].1 by {
                if q < j {
                    assert(crate::text::string_views(before)[q] == before[q]@);
                    assert(keyed_view(sorted@).take(j as int).map_values(|p: (int, Seq<char>)| p.1)[q] == keyed_view(sorted@)[q].1);
                }
            }
            assert(crate::text::string_views(out@) =~= keyed_view(sorted@).take(j + 1).map_values(
                |p: (int, Seq<char>)| p.1,
            ));
        }
        assert(keyed_view(sorted@).take(m as int) == keyed_view(sorted@));
        out
    }
}

/// The view of a keyed list.
pub open spec fn keyed_view(s: Seq<(usize, String)>) -> Seq<(int, Seq<char>)> {
    s.map_values(|p: (usize, String)| (p.0 as int, p.1@))
}

fn key_of_raw(app: &App, raw: &str) -> (r: usize)
    requires
        app.wf(),
    ensures
        r as int == raw_key(app.index.items@, raw@),
{
    let items = &app.index.items;
    let n = items.len();
    let ghost s = items@;
    assert(s.skip(0) == s);
    for i in 0..n
        invariant
            n == s.len(),
            s == items@,
            app.wf(),
            items == &app.index.items,
            forall|j: int| 0 <= j < i ==> s[j].raw@ != raw@,
    {
        if crate::text::str_eq(items[i].raw.as_str(), raw) {
            proof {
                lemma_first_raw_found(s, raw@, i as int);
                lemma_last_slot_position(s, s[i as int].slot);
            }
            match app.position_of(items[i].slot) {
                Some(p) => {
                    return p;
                },
                None => {
                    assert(false);
                    return usize::MAX;
                },
            }
        }
    }
    proof {
        lemma_first_raw_none(s, raw@);
    }
    usize::MAX
}

proof fn lemma_first_raw_found(s: Seq<Item>, raw: Seq<char>, i: int)
    requires
        0 <= i < s.len(),
        s[i].raw@ == raw,
        forall|j: int| 0 <= j < i ==> s[j].raw@ != raw,
    ensures
        first_raw_position(s, raw) == Some(i),
    decreases s.len(),
{
    if i > 0 {
        assert forall|j: int| 0 <= j < i - 1 implies s.drop_first()[j].raw@ != raw by {
            assert(s.drop_first()[j] == s[j + 1]);
        }
        lemma_first_raw_found(s.drop_first(), raw, i - 1);
    }
}

proof fn lemma_first_raw_none(s: Seq<Item>, raw: Seq<char>)
    requires
        forall|j: int| 0 <= j < s.len() ==> s[j].raw@ != raw,
    ensures
        first_raw_position(s, raw) is None,
    decreases s.len(),
{
    if s.len() > 0 {
        assert forall|j: int| 0 <= j < s.len() - 1 implies s.drop_first()[j].raw@ != raw by {
            assert(s.drop_first()[j] == s[j + 1]);
        }
        lemma_first_raw_none(s.drop_first(), raw);
    }
}

/// Inserts `(key, raw)` after every entry whose key is not greater.
fn insert_keyed(s: &mut Vec<(usize, String)>, key: usize, raw: String)
    ensures
        keyed_view(final(s)@) == insert_sorted(keyed_view(old(s)@), (key as int, raw@)),
{
    let ghost s0 = keyed_view(s@);
    let mut p = s.len();
    assert(s0.take(p as int) == s0);
    assert(s0.skip(p as int) == Seq::<(int, Seq<char>)>::empty());
    while p > 0 && s[p - 1].0 > key
        invariant
            p <= s@.len(),
            s0 == keyed_view(s@),
            insert_sorted(s0, (key as int, raw@)) == insert_sorted(s0.take(p as int), (
                key as int,
                raw@,
            )) + s0.skip(p as int),
        decreases p,
    {
        proof {
            let t = s0.take(p as int);
            assert(t.drop_last() == s0.take(p - 1));
            assert(t.last() == s0[p - 1]);
            assert(s0.skip(p - 1) == seq![s0[p - 1]] + s0.skip(p as int));
            assert(insert_sorted(t, (key as int, raw@)) == insert_sorted(s0.take(p - 1), (
                key as int,
                raw@,
            )).push(s0[p - 1]));
            assert(insert_sorted(s0.take(p - 1), (key as int, raw@)).push(s0[p - 1]) + s0.skip(
                p as int,
            ) =~= insert_sorted(s0.take(p - 1), (key as int, raw@)) + s0.skip(p - 1));
        }
        p = p - 1;
    }
    proof {
        let t = s0.take(p as int);
        assert(insert_sorted(t, (key as int, raw@)) == t.push((key as int, raw@)));
    }
    s.insert(p, (key, raw));
    assert(keyed_view(s@) =~= s0.take(p as int).push((key as int, raw@)) + s0.skip(p as int));
}

/// A key as the picker tells keys apart.
#[derive(Debug, Clone, Copy, PartialEq, Eq, Structural)]
pub enum PickerKey {
    Esc,
    Enter,
    Up,
    Down,
    Backspace,
    Char(char),
    Other,
}

/// The modifiers held with a key: none, exactly Control, or any other set.
#[derive(Debug, Clone, Copy, PartialEq, Eq, Structural)]
pub enum Modifiers {
    Plain,
    Control,
    Other,
}

/// What a key press asks of the picker.
#[derive(Debug, Clone, Copy, PartialEq, Eq, Structural)]
pub enum KeyAction {
    Cancel,
    Confirm,
    Up,
    Down,
    Toggle,
    Erase,
    Type(char),
    Nothing,
}

/// The action of a key: Esc or Control-C cancel, Enter confirms, the
/// arrows (or a plain `k` / `j`) move, Space toggles, Backspace erases, any
/// other character is typed.
pub open spec fn key_action_spec(key: PickerKey, mods: Modifiers) -> KeyAction {
    match key {
        PickerKey::Esc => KeyAction::Cancel,
        PickerKey::Char(c) if c == 'c' && mods == Modifiers::Control => KeyAction::Cancel,
        PickerKey::Enter => KeyAction::Confirm,
        PickerKey::Up => KeyAction::Up,
        PickerKey::Char(c) if c == 'k' && mods == Modifiers::Plain => KeyAction::Up,
        PickerKey::Down => KeyAction::Down,
        PickerKey::Char(c) if c == 'j' && mods == Modifiers::Plain => KeyAction::Down,
        PickerKey::Char(c) if c == ' ' => KeyAction::Toggle,
        PickerKey::Backspace => KeyAction::Erase,
        PickerKey::Char(c) => KeyAction::Type(c),
        PickerKey::Other => KeyAction::Nothing,
    }
}

/// The action a key press asks for.
pub fn key_action(key: PickerKey, mods: Modifiers) -> (r: KeyAction)
    ensures
        r == key_action_spec(key, mods),
{
    match key {
        PickerKey::Esc => KeyAction::Cancel,
        PickerKey::Char(c) if c == 'c' && mods == Modifiers::Control => KeyAction::Cancel,
        PickerKey::Enter => KeyAction::Confirm,
        PickerKey::Up => KeyAction::Up,
        PickerKey::Char(c) if c == 'k' && mods == Modifiers::Plain => KeyAction::Up,
        PickerKey::Down => KeyAction::Down,
        PickerKey::Char(c) if c == 'j' && mods == Modifiers::Plain => KeyAction::Down,
        PickerKey::Char(c) if c == ' ' => KeyAction::Toggle,
        PickerKey::Backspace => KeyAction::Erase,
        PickerKey::Char(c) => KeyAction::Type(c),
        PickerKey::Other => KeyAction::Nothing,
    }
}

/// The texts a picker row is drawn from, part by part.
pub struct RowText {
    /// Whether the row's item is toggled.
    pub checked: bool,
    /// `●` and a space when toggled, else two spaces.
    pub check: String,
    /// The slot as `[N]`, the number right-aligned to the widest slot.
    pub slot: String,
    /// A space, then the status text (nothing after the space when the
    /// item has no status).
    pub status: String,
    /// The category the status is coloured by.
    pub category: Category,
    /// Two spaces, then the label.
    pub label: String,
}

/// The mark in front of a row.
pub open spec fn check_text(checked: bool) -> Seq<char> {
    if checked {
        "\u{25cf} "@
    } else {
        "  "@
    }
}

impl<'a> App<'a> {
    /// The texts of visible row `row`.
    pub fn row_text(&self, row: usize) -> (r: RowText)
        requires
            self.wf(),
            row < self.visible@.len(),
        ensures
            ({
                let it = self.index.items@[self.visible@[row as int] as int];
                &&& r.checked == self.selected@.contains(self.visible@[row as int])
                &&& r.check@ == check_text(r.checked)
                &&& r.slot@ == slot_text(it.slot, decimal(max_slot(self.index.items@)).len())
                &&& r.status@ == seq![' '] + item_status(it).0
                &&& r.category == item_status(it).1
                &&& r.label@ == "  "@ + it.label@
            }),
    {
        let p = self.visible[row];
        let it = &self.index.items[p];
        let m = self.selected.len();
        let mut checked = false;
        for k in 0..m
            invariant
                m == self.selected@.len(),
                checked <==> exists|q: int| 0 <= q < k && self.selected@[q] == p,
        {
            if self.selected[k] == p {
                checked = true;
            }
        }
        proof {
            if checked {
                let q = choose|q: int| 0 <= q < m && self.selected@[q] == p;
                assert(self.selected@[q] == p);
                assert(self.selected@.contains(p));
            } else {
                assert(!self.selected@.contains(p));
            }
        }
        let check = if checked {
            String::from_str("\u{25cf} ")
        } else {
            String::from_str("  ")
        };
        let width = self.index.max_slot_width();
        let digits = decimal_string(it.slot as u64);
        let mut slot = String::new();
        slot.push('[');
        let padded = pad_left_string(digits.as_str(), width);
        slot.append(padded.as_str());
        slot.push(']');
        let mut status = String::new();
        status.push(' ');
        let category = match &it.status {
            Some(st) => {
                status.append(st.text.as_str());
                st.category
            },
            None => Category::Unknown,
        };
        let mut label = String::from_str("  ");
        label.append(it.label.as_str());
        RowText { checked, check, slot, status, category, label }
    }
}

} // verus!
