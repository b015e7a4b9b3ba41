//! Items: the things a provider lists, each with the slot it is shown under.

use vstd::prelude::*;
use vstd::string::*;

use crate::assoc::{assoc_insert, assoc_map, keys_distinct};

verus! {

/// A JSON value, as `serde_json` holds it: carried through opaquely.
#[verifier::external_type_specification]
#[verifier::external_body]
pub struct ExJsonValue(serde_json::Value);

/// How a status reads: good, bad, needs attention, or nothing to report.
#[derive(Debug, Clone, Copy, PartialEq, Eq, Hash, Structural)]
pub enum Category {
    Positive,
    Negative,
    Warning,
    Neutral,
    Unknown,
}

/// A short status text and the category it is coloured by.
#[derive(Debug, Clone, PartialEq, Eq)]
pub struct ItemStatus {
    pub text: String,
    pub category: Category,
}

impl ItemStatus {
    /// The status text.
    pub fn as_str(&self) -> (r: &str)
        ensures
            r@ == self.text@,
    {
        self.text.as_str()
    }
}

/// One listed thing.
#[derive(Debug, Clone)]
pub struct Item {
    pub slot: usize,
    /// What gets shell-expanded (file path, pid, branch name, ...).
    pub raw: String,
    /// What is displayed.
    pub label: String,
    pub status: Option<ItemStatus>,
    /// Display-only grouping: "staged", "unstaged", "local", "remote", ...
    pub group: Option<String>,
    /// Provider-specific extras, one entry per key.
    pub meta: Vec<(String, serde_json::Value)>,
}

/// The view of an optional string.
pub open spec fn opt_view(o: Option<String>) -> Option<Seq<char>> {
    match o {
        Some(s) => Some(s@),
        None => None,
    }
}

/// The view of an optional status: its text and category.
pub open spec fn status_view(o: Option<ItemStatus>) -> Option<(Seq<char>, Category)> {
    match o {
        Some(s) => Some((s.text@, s.category)),
        None => None,
    }
}

/// `it` has the given slot, raw text, label, status and group, and no
/// metadata.
pub open spec fn item_is(
    it: Item,
    slot: usize,
    raw: Seq<char>,
    label: Seq<char>,
    status: Option<(Seq<char>, Category)>,
    group: Option<Seq<char>>,
) -> bool {
    &&& it.slot == slot
    &&& it.raw@ == raw
    &&& it.label@ == label
    &&& status_view(it.status) == status
    &&& opt_view(it.group) == group
    &&& it.meta@.len() == 0
}

/// What an item shows: slot, raw text, label, status and group.
pub type ItemShape = (usize, Seq<char>, Seq<char>, Option<(Seq<char>, Category)>, Option<Seq<char>>);

/// The shape of an item.
pub open spec fn shape(it: Item) -> ItemShape {
    (it.slot, it.raw@, it.label@, status_view(it.status), opt_view(it.group))
}

/// `items` have the given shapes, in order, and no metadata.
pub open spec fn has_shapes(items: Seq<Item>, shapes: Seq<ItemShape>) -> bool {
    &&& items.len() == shapes.len()
    &&& forall|k: int| 0 <= k < items.len() ==> shape(#[trigger] items[k]) == shapes[k]
    &&& forall|k: int| 0 <= k < items.len() ==> (#[trigger] items[k]).meta@.len() == 0
}

/// Shapes concatenate with the items that have them.
pub proof fn lemma_has_shapes_concat(a: Seq<Item>, sa: Seq<ItemShape>, b: Seq<Item>, sb: Seq<ItemShape>)
    requires
        has_shapes(a, sa),
        has_shapes(b, sb),
    ensures
        has_shapes(a + b, sa + sb),
{
    assert forall|k: int| 0 <= k < (a + b).len() implies shape(#[trigger] (a + b)[k]) == (sa + sb)[k]
        && (a + b)[k].meta@.len() == 0 by {
        if k >= a.len() {
            assert((a + b)[k] == b[k - a.len()]);
        }
    }
}

/// Appending an item with a shape appends the shape.
pub proof fn lemma_has_shapes_push(a: Seq<Item>, sa: Seq<ItemShape>, it: Item, s: ItemShape)
    requires
        has_shapes(a, sa),
        shape(it) == s,
        it.meta@.len() == 0,
    ensures
        has_shapes(a.push(it), sa.push(s)),
{
    assert forall|k: int| 0 <= k < a.push(it).len() implies shape(#[trigger] a.push(it)[k]) == sa.push(s)[k]
        && a.push(it)[k].meta@.len() == 0 by {
        if k < a.len() {
            assert(a.push(it)[k] == a[k]);
        }
    }
}

/// Two items that agree in every field, metadata compared by content.
pub open spec fn same_item(a: Item, b: Item) -> bool {
    &&& a.slot == b.slot
    &&& a.raw == b.raw
    &&& a.label == b.label
    &&& a.status == b.status
    &&& a.group == b.group
    &&& a.meta@ == b.meta@
}

/// `serde_json::Value::clone`: an equal value.
#[verifier::external_body]
fn clone_json(v: &serde_json::Value) -> (r: serde_json::Value)
    ensures
        r == *v,
{
    v.clone()
}

/// A copy of a string option.
pub fn clone_opt_string(o: &Option<String>) -> (r: Option<String>)
    ensures
        r == *o,
{
    match o {
        Some(s) => Some(s.clone()),
        None => None,
    }
}

impl ItemStatus {
    /// A copy of this status.
    pub fn duplicate(&self) -> (r: ItemStatus)
        ensures
            r == *self,
    {
        ItemStatus { text: self.text.clone(), category: self.category }
    }
}

impl Item {
    /// Items are well formed when no metadata key occurs twice.
    pub open spec fn wf(&self) -> bool {
        keys_distinct(self.meta@)
    }

    /// An item with no status, group or metadata.
    pub fn new(slot: usize, raw: &str, label: &str) -> (r: Item)
        ensures
            r.slot == slot,
            r.raw@ == raw@,
            r.label@ == label@,
            r.status is None,
            r.group is None,
            r.meta@.len() == 0,
            r.wf(),
    {
        Item {
            slot,
            raw: String::from_str(raw),
            label: String::from_str(label),
            status: None,
            group: None,
            meta: Vec::new(),
        }
    }

    /// This item with its status set.
    pub fn with_status(self, text: &str, category: Category) -> (r: Item)
        ensures
            r == (Item { status: r.status, ..self }),
            r.status matches Some(s) && s.text@ == text@ && s.category == category,
    {
        let mut s = self;
        s.status = Some(ItemStatus { text: String::from_str(text), category });
        s
    }

    /// This item with its group set.
    pub fn with_group(self, group: &str) -> (r: Item)
        ensures
            r == (Item { group: r.group, ..self }),
            r.group matches Some(g) && g@ == group@,
    {
        let mut s = self;
        s.group = Some(String::from_str(group));
        s
    }

    /// This item with `key` mapped to `value`, replacing an earlier value of
    /// the same key.
    pub fn with_meta(self, key: &str, value: serde_json::Value) -> (r: Item)
        requires
            self.wf(),
        ensures
            r == (Item { meta: r.meta, ..self }),
            r.wf(),
            assoc_map(r.meta@) == assoc_map(self.meta@).insert(key@, value),
    {
        let mut s = self;
        assoc_insert(&mut s.meta, key, value);
        s
    }

    /// A copy of this item.
    pub fn duplicate(&self) -> (r: Item)
        ensures
            same_item(r, *self),
    {
        let status = match &self.status {
            Some(st) => Some(st.duplicate()),
            None => None,
        };
        let mut meta: Vec<(String, serde_json::Value)> = Vec::new();
        let n = self.meta.len();
        for i in 0..n
            invariant
                n == self.meta@.len(),
                meta@ == self.meta@.take(i as int),
        {
            let e = (self.meta[i].0.clone(), clone_json(&self.meta[i].1));
            meta.push(e);
            assert(self.meta@.take(i + 1) == self.meta@.take(i as int).push(self.meta@[i as int]));
        }
        assert(self.meta@.take(n as int) == self.meta@);
        Item {
            slot: self.slot,
            raw: self.raw.clone(),
            label: self.label.clone(),
            status,
            group: clone_opt_string(&self.group),
            meta,
        }
    }
}

/// The items with their slots set to 1, 2, 3, ... in list order.
pub open spec fn with_sequential_slots(items: Seq<Item>) -> Seq<Item> {
    Seq::new(items.len(), |i: int| Item { slot: (i + 1) as usize, ..items[i] })
}

/// Stamps each item with its final slot: the first gets 1, the next 2, and so on.
pub fn assign_slots(items: Vec<Item>) -> (r: Vec<Item>)
    requires
        items@.len() < usize::MAX,
    ensures
        r@ == with_sequential_slots(items@),
{
    let mut items = items;
    let n = items.len();
    let ghost orig = items@;
    for i in 0..n
        invariant
            n == items@.len() == orig.len() < usize::MAX,
            forall|j: int| 0 <= j < i ==> items@[j] == (Item { slot: (j + 1) as usize, ..orig[j] }),
            forall|j: int| i <= j < n ==> items@[j] == orig[j],
    {
        items[i].slot = i + 1;
    }
    assert(items@ =~= with_sequential_slots(orig));
    items
}

} // verus!
