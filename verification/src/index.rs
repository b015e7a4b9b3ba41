//! The index: the last listing, with the slot each item was shown under,
//! and where a terminal session keeps it.

use vstd::prelude::*;
use vstd::string::*;

use crate::error::IxError;
use crate::item::Item;
use crate::selection::{expand, resolve_spec, Selection};
use crate::text::{decimal, decimal_string};

verus! {

/// The provider that made a listing and the items it listed.
#[derive(Debug, Clone)]
pub struct Index {
    pub provider: String,
    pub items: Vec<Item>,
}

/// The largest slot of the items (0 when there are none).
pub open spec fn max_slot(items: Seq<Item>) -> nat
    decreases items.len(),
{
    if items.len() == 0 {
        0
    } else {
        let m = max_slot(items.drop_last());
        if items.last().slot > m {
            items.last().slot as nat
        } else {
            m
        }
    }
}

/// The map from slot to item that a slot-keyed map built from the items in
/// order holds: a later item replaces an earlier one with the same slot.
pub open spec fn slot_map_spec<'a>(items: Seq<&'a Item>) -> Map<usize, &'a Item>
    decreases items.len(),
{
    if items.len() == 0 {
        Map::empty()
    } else {
        slot_map_spec(items.drop_last()).insert(items.last().slot, items.last())
    }
}

/// `PathBuf::push` on Unix: an absolute component replaces the path; a
/// relative one is appended, after a `/` unless the path is empty or
/// already ends with one.
pub open spec fn path_push(base: Seq<char>, comp: Seq<char>) -> Seq<char> {
    if comp.len() > 0 && comp[0] == '/' {
        comp
    } else if base.len() > 0 && base.last() != '/' {
        base + "/"@ + comp
    } else {
        base + comp
    }
}

/// `<base>/ix/sessions/<session_id>/<file>`, joined as paths are.
pub open spec fn session_file(base: Seq<char>, session_id: Seq<char>, file: Seq<char>) -> Seq<char> {
    path_push(path_push(path_push(path_push(base, "ix"@), "sessions"@), session_id), file)
}

/// Joins `comp` onto `base` as `PathBuf::push` does on Unix.
pub fn push_path(base: &mut String, comp: &str)
    ensures
        final(base)@ == path_push(old(base)@, comp@),
{
    let b = crate::text::chars_of(base.as_str());
    let c = crate::text::chars_of(comp);
    if c.len() > 0 && c[0] == '/' {
        *base = String::from_str(comp);
    } else if b.len() > 0 && b[b.len() - 1] != '/' {
        base.append("/");
        base.append(comp);
    } else {
        base.append(comp);
    }
}

/// The user's cache directory (`dirs::cache_dir`), lossily as text. It
/// depends on the environment and the platform; nothing is promised of it.
#[verifier::external_body]
fn user_cache_dir() -> (r: Option<String>) {
    dirs::cache_dir().map(|p| p.to_string_lossy().to_string())
}

/// A session's file under a cache directory (`/tmp` when there is none).
pub fn session_path(cache: Option<String>, session_id: &str, file: &str) -> (r: String)
    ensures
        r@ == session_file(
            match cache {
                Some(c) => c@,
                None => "/tmp"@,
            },
            session_id@,
            file@,
        ),
{
    let mut p = match cache {
        Some(c) => c,
        None => String::from_str("/tmp"),
    };
    push_path(&mut p, "ix");
    push_path(&mut p, "sessions");
    push_path(&mut p, session_id);
    push_path(&mut p, file);
    p
}

impl Index {
    pub fn new(provider: &str, items: Vec<Item>) -> (r: Index)
        ensures
            r.provider@ == provider@,
            r.items == items,
    {
        Index { provider: String::from_str(provider), items }
    }

    /// The items a selection names; see `Selection::resolve`.
    pub fn resolve(&self, sel: &Selection) -> (r: Result<Vec<&Item>, IxError>)
        ensures
            r matches Ok(v) ==> resolve_spec(self.items@, expand(sel.0@)) matches Ok(ix) && v@.len()
                == ix.len() && forall|k: int| 0 <= k < ix.len() ==> *v@[k] == self.items@[ix[k]],
            r matches Err(e) ==> resolve_spec(self.items@, expand(sel.0@)) matches Err(n) && e
                == IxError::SlotOutOfRange(n, self.items@.len() as usize),
    {
        sel.resolve(self)
    }

    /// The number of digits of the largest slot, which slot columns are
    /// padded to.
    pub fn max_slot_width(&self) -> (r: usize)
        ensures
            r == decimal(max_slot(self.items@)).len(),
    {
        let n = self.items.len();
        let mut m: usize = 0;
        for i in 0..n
            invariant
                n == self.items@.len(),
                m == max_slot(self.items@.take(i as int)),
        {
            assert(self.items@.take(i + 1).drop_last() == self.items@.take(i as int));
            if self.items[i].slot > m {
                m = self.items[i].slot;
            }
        }
        assert(self.items@.take(n as int) == self.items@);
        let s = decimal_string(m as u64);
        s.unicode_len()
    }

    /// A map from slot to item (a later item with the same slot wins).
    pub fn slot_map(&self) -> (r: std::collections::HashMap<usize, &Item>)
        ensures
            r@ == slot_map_spec(self.items@.map_values(|i: Item| &i)),
    {
        broadcast use vstd::std_specs::hash::group_hash_axioms;
        let mut m: std::collections::HashMap<usize, &Item> = std::collections::HashMap::new();
        let n = self.items.len();
        let ghost refs = self.items@.map_values(|i: Item| &i);
        assert(refs.take(0) == Seq::<&Item>::empty());
        for i in 0..n
            invariant
                n == self.items@.len(),
                refs == self.items@.map_values(|i: Item| &i),
                m@ == slot_map_spec(refs.take(i as int)),
        {
            assert(refs.take(i + 1).drop_last() == refs.take(i as int));
            let it: &Item = &self.items[i];
            m.insert(it.slot, it);
        }
        assert(refs.take(n as int) == refs);
        m
    }

    /// Where a terminal session keeps its index:
    /// `<cache dir>/ix/sessions/<session_id>/index.json`.
    pub fn index_path(session_id: &str) -> (r: String)
        ensures
            exists|base: Seq<char>| r@ == session_file(base, session_id@, "index.json"@),
    {
        session_path(user_cache_dir(), session_id, "index.json")
    }

    /// Where a terminal session keeps its previous index:
    /// `<cache dir>/ix/sessions/<session_id>/index.prev.json`.
    pub fn prev_path(session_id: &str) -> (r: String)
        ensures
            exists|base: Seq<char>| r@ == session_file(base, session_id@, "index.prev.json"@),
    {
        session_path(user_cache_dir(), session_id, "index.prev.json")
    }
}

} // verus!
