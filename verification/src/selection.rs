//! Slot selectors: `3`, `1-4`, `1,3,5`, `1,3-5`, exclusions `^2` and
//! `^2-3`, given as one or more arguments, and their resolution against an
//! index.

use vstd::prelude::*;
use vstd::string::*;

use crate::error::{is_parse_error, IxError};
use crate::index::Index;
use crate::item::Item;
use crate::text::{
    chars_of, decimal, find_char, parse_usize, parse_usize_spec, push_decimal, slice_chars, split_chars,
    split_on, split_once, string_of, trim, trim_chars, views, lemma_first_index_of,
};

verus! {

/// One selector: a single slot, an inclusive range of slots, or an
/// inclusive range of slots left out (`^n` is `Exclude(n, n)`).
#[derive(Debug, Clone, Copy, PartialEq, Eq, Structural)]
pub enum Selector {
    Slot(usize),
    Range(usize, usize),
    Exclude(usize, usize),
}

/// The selectors of a command line, in the order given.
#[derive(Debug, Clone)]
pub struct Selection(pub Vec<Selector>);

/// `a, a+1, ..., b` (empty when `a > b`).
pub open spec fn range_seq(a: usize, b: usize) -> Seq<usize> {
    if a <= b {
        Seq::new((b - a + 1) as nat, |i: int| (a + i) as usize)
    } else {
        Seq::empty()
    }
}

/// The slots one selector lists; an exclusion lists none.
pub open spec fn selector_slots(s: Selector) -> Seq<usize> {
    match s {
        Selector::Slot(n) => seq![n],
        Selector::Range(a, b) => range_seq(a, b),
        Selector::Exclude(_, _) => Seq::empty(),
    }
}

/// The slots the selectors list, in order, repeats kept.
pub open spec fn listed(sels: Seq<Selector>) -> Seq<usize>
    decreases sels.len(),
{
    if sels.len() == 0 {
        Seq::empty()
    } else {
        listed(sels.drop_last()) + selector_slots(sels.last())
    }
}

/// Whether an exclusion of the selectors, wherever it stands, covers `n`.
pub open spec fn excluded(sels: Seq<Selector>, n: usize) -> bool {
    exists|i: int|
        0 <= i < sels.len() && (#[trigger] sels[i] matches Selector::Exclude(a, b) && a <= n && n
            <= b)
}

/// The slots of `slots` that no exclusion covers, in order.
pub open spec fn not_excluded(slots: Seq<usize>, sels: Seq<Selector>) -> Seq<usize>
    decreases slots.len(),
{
    if slots.len() == 0 {
        Seq::empty()
    } else if excluded(sels, slots.last()) {
        not_excluded(slots.drop_last(), sels)
    } else {
        not_excluded(slots.drop_last(), sels).push(slots.last())
    }
}

/// The slots a selection stands for: those it lists that none of its
/// exclusions covers, in order, repeats kept.
pub open spec fn expand(sels: Seq<Selector>) -> Seq<usize> {
    not_excluded(listed(sels), sels)
}

proof fn lemma_listed_concat(a: Seq<Selector>, b: Seq<Selector>)
    ensures
        listed(a + b) == listed(a) + listed(b),
    decreases b.len(),
{
    if b.len() == 0 {
        assert(a + b == a);
    } else {
        lemma_listed_concat(a, b.drop_last());
        assert((a + b).drop_last() == a + b.drop_last());
    }
}

proof fn lemma_not_excluded_concat(x: Seq<usize>, y: Seq<usize>, sels: Seq<Selector>)
    ensures
        not_excluded(x + y, sels) == not_excluded(x, sels) + not_excluded(y, sels),
    decreases y.len(),
{
    if y.len() == 0 {
        assert(x + y == x);
    } else {
        lemma_not_excluded_concat(x, y.drop_last(), sels);
        assert((x + y).drop_last() == x + y.drop_last());
    }
}

proof fn lemma_not_excluded_none(y: Seq<usize>, sels: Seq<Selector>)
    requires
        forall|i: int| 0 <= i < y.len() ==> excluded(sels, #[trigger] y[i]),
    ensures
        not_excluded(y, sels).len() == 0,
    decreases y.len(),
{
    if y.len() > 0 {
        assert(excluded(sels, y[y.len() - 1]));
        assert forall|i: int| 0 <= i < y.len() - 1 implies excluded(sels, #[trigger] y.drop_last()[i]) by {
            assert(y.drop_last()[i] == y[i]);
        }
        lemma_not_excluded_none(y.drop_last(), sels);
    }
}

/// The selection's slots are the slots of its first `k` selectors, then
/// those of the rest.
proof fn lemma_expand_split(sels: Seq<Selector>, k: int)
    requires
        0 <= k < sels.len(),
    ensures
        not_excluded(listed(sels.take(k + 1)), sels) == not_excluded(listed(sels.take(k)), sels)
            + not_excluded(selector_slots(sels[k]), sels),
        expand(sels) == not_excluded(listed(sels.take(k + 1)), sels) + not_excluded(
            listed(sels.skip(k + 1)),
            sels,
        ),
{
    assert(sels.take(k + 1).drop_last() == sels.take(k));
    assert(sels.take(k + 1).last() == sels[k]);
    lemma_not_excluded_concat(listed(sels.take(k)), selector_slots(sels[k]), sels);
    assert(sels.take(k + 1) + sels.skip(k + 1) == sels);
    lemma_listed_concat(sels.take(k + 1), sels.skip(k + 1));
    lemma_not_excluded_concat(listed(sels.take(k + 1)), listed(sels.skip(k + 1)), sels);
}

proof fn lemma_not_excluded_members(slots: Seq<usize>, sels: Seq<Selector>)
    ensures
        forall|x: usize|
            #[trigger] not_excluded(slots, sels).contains(x) <==> slots.contains(x) && !excluded(sels, x),
    decreases slots.len(),
{
    if slots.len() > 0 {
        let init = slots.drop_last();
        lemma_not_excluded_members(init, sels);
        assert(slots =~= init.push(slots.last()));
        assert forall|x: usize| #[trigger] slots.contains(x) <==> init.contains(x) || x == slots.last() by {
            if slots.contains(x) {
                let i = choose|i: int| 0 <= i < slots.len() && slots[i] == x;
                if i < slots.len() - 1 {
                    assert(init[i] == x);
                }
            }
            if init.contains(x) {
                let i = choose|i: int| 0 <= i < init.len() && init[i] == x;
                assert(slots[i] == x);
            }
            if x == slots.last() {
                assert(slots[slots.len() - 1] == x);
            }
        }
        let rest = not_excluded(init, sels);
        assert forall|x: usize| #[trigger] rest.push(slots.last()).contains(x) <==> rest.contains(x) || x
            == slots.last() by {
            if rest.push(slots.last()).contains(x) {
                let i = choose|i: int| 0 <= i < rest.len() + 1 && rest.push(slots.last())[i] == x;
                if i < rest.len() {
                    assert(rest[i] == x);
                }
            }
            if rest.contains(x) {
                let i = choose|i: int| 0 <= i < rest.len() && rest[i] == x;
                assert(rest.push(slots.last())[i] == x);
            }
            if x == slots.last() {
                assert(rest.push(slots.last())[rest.len() as int] == x);
            }
        }
    }
}

/// An exclusion wins wherever it stands: a selection stands for exactly
/// the slots its selectors list that none of its exclusions covers.
pub proof fn law_exclusions_remove_slots(sels: Seq<Selector>)
    ensures
        forall|x: usize|
            #[trigger] expand(sels).contains(x) <==> listed(sels).contains(x) && !excluded(sels, x),
{
    lemma_not_excluded_members(listed(sels), sels);
}

/// Whether an exclusion covers `n`, and if so the last slot of one that
/// does.
fn exclusion_end(sels: &Vec<Selector>, n: usize) -> (r: Option<usize>)
    ensures
        r is None <==> !excluded(sels@, n),
        r matches Some(e) ==> n <= e && forall|y: usize| n <= y <= e ==> excluded(sels@, y),
{
    let m = sels.len();
    for i in 0..m
        invariant
            m == sels@.len(),
            forall|q: int|
                0 <= q < i ==> !(#[trigger] sels@[q] matches Selector::Exclude(a, b) && a <= n && n
                    <= b),
    {
        match sels[i] {
            Selector::Exclude(a, b) => {
                if a <= n && n <= b {
                    assert(sels@[i as int] == Selector::Exclude(a, b));
                    assert forall|y: usize| n <= y <= b implies excluded(sels@, y) by {
                        assert(sels@[i as int] == Selector::Exclude(a, b));
                    }
                    return Some(b);
                }
            },
            _ => {},
        }
    }
    None
}

// ───────────────────────────── parsing ─────────────────────────────

/// The trimmed, non-empty pieces among `pieces`.
pub open spec fn nonempty_trimmed(pieces: Seq<Seq<char>>) -> Seq<Seq<char>>
    decreases pieces.len(),
{
    if pieces.len() == 0 {
        Seq::empty()
    } else {
        let t = trim(pieces.last());
        if t.len() > 0 {
            nonempty_trimmed(pieces.drop_last()).push(t)
        } else {
            nonempty_trimmed(pieces.drop_last())
        }
    }
}

/// The tokens of the arguments: each argument split at commas, each piece
/// trimmed, empty pieces dropped.
pub open spec fn tokens(args: Seq<Seq<char>>) -> Seq<Seq<char>>
    decreases args.len(),
{
    if args.len() == 0 {
        Seq::empty()
    } else {
        tokens(args.drop_last()) + nonempty_trimmed(split_on(args.last(), ','))
    }
}

/// What the body `b` of token `t` reads as (a slot or a range), or the
/// message of the error it gives, which quotes the whole token.
pub open spec fn parse_plain_spec(b: Seq<char>, t: Seq<char>) -> Result<Selector, Seq<char>> {
    match split_once(b, '-') {
        Some((left, right)) => match parse_usize_spec(trim(left)) {
            None => Err("Invalid range start in '"@ + t + "'"@),
            Some(a) => match parse_usize_spec(trim(right)) {
                None => Err("Invalid range end in '"@ + t + "'"@),
                Some(c) => if a > c {
                    Err(
                        "Range start ("@ + decimal(a as nat) + ") must be <= end ("@ + decimal(
                            c as nat,
                        ) + ")"@,
                    )
                } else {
                    Ok(Selector::Range(a, c))
                },
            },
        },
        None => match parse_usize_spec(b) {
            Some(n) => Ok(Selector::Slot(n)),
            None => Err("'"@ + t + "' is not a valid slot number or range"@),
        },
    }
}

/// What one token reads as, or the message of the error it gives: a token
/// starting with `^` excludes the slot or range that follows.
#[verifier::opaque]
pub open spec fn parse_token_spec(t: Seq<char>) -> Result<Selector, Seq<char>> {
    if t.len() > 0 && t[0] == '^' {
        match parse_plain_spec(t.drop_first(), t) {
            Ok(Selector::Slot(n)) => Ok(Selector::Exclude(n, n)),
            Ok(Selector::Range(a, c)) => Ok(Selector::Exclude(a, c)),
            other => other,
        }
    } else {
        parse_plain_spec(t, t)
    }
}

/// The selectors of a list of tokens, or the error of the first bad token.
pub open spec fn parse_tokens(ts: Seq<Seq<char>>) -> Result<Seq<Selector>, Seq<char>>
    decreases ts.len(),
{
    if ts.len() == 0 {
        Ok(Seq::empty())
    } else {
        match parse_tokens(ts.drop_last()) {
            Err(e) => Err(e),
            Ok(p) => match parse_token_spec(ts.last()) {
                Ok(s) => Ok(p.push(s)),
                Err(e) => Err(e),
            },
        }
    }
}

/// What `Selection::parse` gives for arguments whose views are `args`.
pub open spec fn parse_spec(args: Seq<Seq<char>>) -> Result<Seq<Selector>, Seq<char>> {
    match parse_tokens(tokens(args)) {
        Err(e) => Err(e),
        Ok(s) => if s.len() == 0 {
            Err("No selectors provided"@)
        } else {
            Ok(s)
        },
    }
}

/// The views of a list of string slices.
pub open spec fn str_views(args: Seq<&str>) -> Seq<Seq<char>> {
    args.map_values(|a: &str| a@)
}

proof fn lemma_parse_tokens_err_sticks(a: Seq<Seq<char>>, b: Seq<Seq<char>>)
    requires
        parse_tokens(a) is Err,
    ensures
        parse_tokens(a + b) == parse_tokens(a),
    decreases b.len(),
{
    if b.len() == 0 {
        assert(a + b == a);
    } else {
        lemma_parse_tokens_err_sticks(a, b.drop_last());
        assert((a + b).drop_last() == a + b.drop_last());
    }
}

proof fn lemma_nt_concat(a: Seq<Seq<char>>, b: Seq<Seq<char>>)
    ensures
        nonempty_trimmed(a + b) == nonempty_trimmed(a) + nonempty_trimmed(b),
    decreases b.len(),
{
    if b.len() == 0 {
        assert(a + b == a);
    } else {
        lemma_nt_concat(a, b.drop_last());
        assert((a + b).drop_last() == a + b.drop_last());
    }
}

proof fn lemma_tokens_concat(a: Seq<Seq<char>>, b: Seq<Seq<char>>)
    ensures
        tokens(a + b) == tokens(a) + tokens(b),
    decreases b.len(),
{
    if b.len() == 0 {
        assert(a + b == a);
    } else {
        lemma_tokens_concat(a, b.drop_last());
        assert((a + b).drop_last() == a + b.drop_last());
    }
}

/// Reads the body of a token: a slot or a range.
fn parse_plain(token: &[char], shown: &[char]) -> (r: Result<Selector, IxError>)
    ensures
        r matches Ok(s) ==> parse_plain_spec(token@, shown@) == Ok::<Selector, Seq<char>>(s) && (
        s is Slot || s is Range),
        r matches Err(e) ==> parse_plain_spec(token@, shown@) matches Err(m) && is_parse_error(e, m),
{
    let tok = string_of(shown);
    proof {
        lemma_first_index_of(token@, '-');
    }
    match find_char(token, '-') {
        Some(i) => {
            let tl = token.len();
            assert(i < tl);
            let left = trim_chars(&slice_chars(token, 0, i));
            let right = trim_chars(&slice_chars(token, i + 1, tl));
            assert(token@.take(i as int) == token@.subrange(0, i as int));
            assert(token@.skip(i + 1) == token@.subrange(i + 1, token@.len() as int));
            match parse_usize(&left) {
                None => {
                    let mut m = String::from_str("Invalid range start in '");
                    m.append(tok.as_str());
                    m.append("'");
                    Err(IxError::ParseError(m))
                },
                Some(a) => match parse_usize(&right) {
                    None => {
                        let mut m = String::from_str("Invalid range end in '");
                        m.append(tok.as_str());
                        m.append("'");
                        Err(IxError::ParseError(m))
                    },
                    Some(b) => {
                        if a > b {
                            let mut m = String::from_str("Range start (");
                            push_decimal(&mut m, a as u64);
                            m.append(") must be <= end (");
                            push_decimal(&mut m, b as u64);
                            m.append(")");
                            Err(IxError::ParseError(m))
                        } else {
                            Ok(Selector::Range(a, b))
                        }
                    },
                },
            }
        },
        None => match parse_usize(token) {
            Some(n) => Ok(Selector::Slot(n)),
            None => {
                let mut m = String::from_str("'");
                m.append(tok.as_str());
                m.append("' is not a valid slot number or range");
                Err(IxError::ParseError(m))
            },
        },
    }
}

/// Reads one token.
fn parse_token(token: &[char]) -> (r: Result<Selector, IxError>)
    ensures
        r matches Ok(s) ==> parse_token_spec(token@) == Ok::<Selector, Seq<char>>(s),
        r matches Err(e) ==> parse_token_spec(token@) matches Err(m) && is_parse_error(e, m),
{
    proof {
        reveal(parse_token_spec);
    }
    if token.len() > 0 && token[0] == '^' {
        let body = slice_chars(token, 1, token.len());
        assert(token@.subrange(1, token@.len() as int) == token@.drop_first());
        match parse_plain(&body, token) {
            Ok(Selector::Slot(n)) => Ok(Selector::Exclude(n, n)),
            Ok(Selector::Range(a, b)) => Ok(Selector::Exclude(a, b)),
            Ok(other) => Ok(other),
            Err(e) => Err(e),
        }
    } else {
        parse_plain(token, token)
    }
}

impl Selection {
    /// Every selector expanded, in order, leaving out the slots an exclusion
    /// covers: the flat list of slot numbers.
    pub fn slots(&self) -> (r: Vec<usize>)
        ensures
            r@ == expand(self.0@),
    {
        let sels = &self.0;
        let ghost all = sels@;
        let mut result: Vec<usize> = Vec::new();
        let n = sels.len();
        assert(listed(all.take(0)) =~= Seq::<usize>::empty());
        for k in 0..n
            invariant
                n == all.len(),
                all == self.0@,
                sels@ == all,
                result@ == not_excluded(listed(all.take(k as int)), all),
        {
            proof {
                lemma_expand_split(all, k as int);
            }
            let ghost before = result@;
            match sels[k] {
                Selector::Slot(x) => {
                    assert(seq![x].drop_last() =~= Seq::<usize>::empty());
                    assert(seq![x].last() == x);
                    assert(not_excluded(Seq::<usize>::empty(), all) =~= Seq::<usize>::empty());
                    if exclusion_end(sels, x).is_none() {
                        result.push(x);
                        assert(not_excluded(seq![x], all) =~= seq![x]);
                    } else {
                        assert(excluded(all, x));
                        assert(not_excluded(Seq::<usize>::empty(), all) =~= Seq::<usize>::empty());
                        assert(seq![x].drop_last() =~= Seq::<usize>::empty());
                        assert(not_excluded(seq![x], all) =~= Seq::<usize>::empty());
                    }
                },
                Selector::Range(a, b) => {
                    if a <= b {
                        let mut x = a;
                        assert(range_seq(a, b).take(0) =~= Seq::<usize>::empty());
                        loop
                            invariant_except_break
                                result@ == before + not_excluded(range_seq(a, b).take(x - a), all),
                            invariant
                                a <= x <= b,
                                all == self.0@,
                                sels@ == all,
                            ensures
                                result@ == before + not_excluded(range_seq(a, b), all),
                            decreases b - x,
                        {
                            assert(range_seq(a, b).take(x - a + 1) =~= range_seq(a, b).take(
                                x - a,
                            ).push(x));
                            assert(range_seq(a, b).take(x - a + 1).drop_last() =~= range_seq(
                                a,
                                b,
                            ).take(x - a));
                            let ghost acc = result@;
                            if exclusion_end(sels, x).is_none() {
                                result.push(x);
                                assert(result@ =~= before + not_excluded(range_seq(a, b).take(x - a), all).push(x));
                            }
                            if x == b {
                                assert(range_seq(a, b).take(x - a + 1) =~= range_seq(a, b));
                                break;
                            }
                            x = x + 1;
                        }
                    } else {
                        assert(range_seq(a, b) =~= Seq::<usize>::empty());
                    }
                },
                Selector::Exclude(_, _) => {},
            }
        }
        assert(all.take(n as int) =~= all);
        result
    }

    /// Parses slot selectors: single slots (`"3"`), ranges (`"1-4"`),
    /// comma-separated lists (`"1,3,5"`, `"1,3-5"`) and exclusions (`"^2"`,
    /// `"^2-3"`), across several arguments.
    pub fn parse(args: &[&str]) -> (r: Result<Selection, IxError>)
        ensures
            r matches Ok(sel) ==> parse_spec(str_views(args@)) == Ok::<Seq<Selector>, Seq<char>>(
                sel.0@,
            ),
            r matches Err(e) ==> parse_spec(str_views(args@)) matches Err(m) && is_parse_error(
                e,
                m,
            ),
    {
        let mut v: Vec<Vec<char>> = Vec::new();
        let n = args.len();
        for i in 0..n
            invariant
                n == args@.len(),
                views(v@) == str_views(args@).take(i as int),
        {
            let c = chars_of(args[i]);
            let ghost before = v@;
            v.push(c);
            assert(views(v@) =~= views(before).push(c@));
            assert(str_views(args@).take(i + 1) =~= str_views(args@).take(i as int).push(args@[i as int]@));
        }
        assert(str_views(args@).take(n as int) == str_views(args@));
        Self::parse_chars(&v)
    }

    /// `parse` over arguments given as characters.
    pub fn parse_chars(args: &[Vec<char>]) -> (r: Result<Selection, IxError>)
        ensures
            r matches Ok(sel) ==> parse_spec(views(args@)) == Ok::<Seq<Selector>, Seq<char>>(
                sel.0@,
            ),
            r matches Err(e) ==> parse_spec(views(args@)) matches Err(m) && is_parse_error(e, m),
    {
        let mut selectors: Vec<Selector> = Vec::new();
        let n = args.len();
        let ghost all = views(args@);
        let ghost mut done: Seq<Seq<char>> = Seq::empty();
        for i in 0..n
            invariant
                n == args@.len(),
                all == views(args@),
                done == tokens(all.take(i as int)),
                parse_tokens(done) == Ok::<Seq<Selector>, Seq<char>>(selectors@),
        {
            let pieces = split_chars(&args[i], ',');
            let m = pieces.len();
            let ghost done_i = done;
            assert(all.len() == n);
            assert(all.take(i + 1).drop_last() == all.take(i as int));
            assert(all[i as int] == args@[i as int]@);
            for j in 0..m
                invariant
                    n == args@.len(),
                    all == views(args@),
                    all.len() == n,
                    i < n,
                    done_i == tokens(all.take(i as int)),
                    views(pieces@) == split_on(all[i as int], ','),
                    m == pieces@.len(),
                    done == done_i + nonempty_trimmed(views(pieces@).take(j as int)),
                    parse_tokens(done) == Ok::<Seq<Selector>, Seq<char>>(selectors@),
            {
                assert(views(pieces@).take(j + 1).drop_last() == views(pieces@).take(j as int));
                let token = trim_chars(&pieces[j]);
                if token.len() > 0 {
                    match parse_token(&token) {
                        Ok(sel) => {
                            proof {
                                assert((done + seq![token@]).drop_last() == done);
                                done = done + seq![token@];
                            }
                            selectors.push(sel);
                        },
                        Err(e) => {
                            proof {
                                let p = views(pieces@);
                                let next = done + seq![token@];
                                assert(next.drop_last() == done);
                                assert(p[j as int] == pieces@[j as int]@);
                                assert(p.take(j + 1).drop_last() == p.take(j as int));
                                assert(nonempty_trimmed(p.take(j + 1)) == nonempty_trimmed(
                                    p.take(j as int),
                                ).push(token@));
                                lemma_nt_concat(p.take(j + 1), p.skip(j + 1));
                                assert(p.take(j + 1) + p.skip(j + 1) == p);
                                lemma_tokens_concat(all.take(i + 1), all.skip(i + 1));
                                assert(all.take(i + 1) + all.skip(i + 1) == all);
                                let rest = nonempty_trimmed(p.skip(j + 1)) + tokens(
                                    all.skip(i + 1),
                                );
                                assert(all.take(i + 1).drop_last() == all.take(i as int));
                                assert(tokens(all.take(i + 1)) == done_i + nonempty_trimmed(p));
                                assert(next == done_i + nonempty_trimmed(p.take(j + 1)));
                                assert(tokens(all) == done_i + nonempty_trimmed(p) + tokens(
                                    all.skip(i + 1),
                                ));
                                assert(tokens(all) == next + rest);
                                lemma_parse_tokens_err_sticks(next, rest);
                            }
                            return Err(e);
                        },
                    }
                }
            }
            assert(views(pieces@).take(m as int) == views(pieces@));
        }
        assert(all.take(n as int) == all);
        if selectors.len() == 0 {
            return Err(IxError::ParseError(String::from_str("No selectors provided")));
        }
        Ok(Selection(selectors))
    }

    /// The items the selection names, in selection order; the first slot
    /// that no item carries is an error. Ranges are walked a slot at a
    /// time, stopping at that slot, and runs of excluded slots are skipped.
    pub fn resolve<'a>(&self, index: &'a Index) -> (r: Result<Vec<&'a Item>, IxError>)
        ensures
            r matches Ok(v) ==> resolve_spec(index.items@, expand(self.0@)) matches Ok(ix) && v@.len()
                == ix.len() && forall|k: int| 0 <= k < ix.len() ==> *v@[k] == index.items@[ix[k]],
            r matches Ok(v) ==> resolve_spec(index.items@, expand(self.0@)) matches Ok(ix) && forall|
                k: int,
            | 0 <= k < ix.len() ==> 0 <= #[trigger] ix[k] < index.items@.len(),
            r matches Err(e) ==> resolve_spec(index.items@, expand(self.0@)) matches Err(n) && e
                == IxError::SlotOutOfRange(n, index.items@.len() as usize),
    {
        let sels = &self.0;
        let ghost all = sels@;
        let ghost items = index.items@;
        let total = index.items.len();
        let n = sels.len();
        let mut out: Vec<&'a Item> = Vec::new();
        let ghost mut ix: Seq<int> = Seq::empty();
        let ghost mut done: Seq<usize> = Seq::empty();
        assert(listed(all.take(0)) =~= Seq::<usize>::empty());
        assert(not_excluded(Seq::<usize>::empty(), all) =~= Seq::<usize>::empty());
        for k in 0..n
            invariant
                n == all.len(),
                sels@ == all,
                all == self.0@,
                items == index.items@,
                total == items.len(),
                done == not_excluded(listed(all.take(k as int)), all),
                resolve_spec(items, done) == Ok::<Seq<int>, usize>(ix),
                out@.len() == ix.len(),
                forall|q: int| 0 <= q < ix.len() ==> 0 <= #[trigger] ix[q] < items.len(),
                forall|q: int| 0 <= q < ix.len() ==> *out@[q] == items[#[trigger] ix[q]],
        {
            proof {
                lemma_expand_split(all, k as int);
            }
            let ghost rest = not_excluded(listed(all.skip(k + 1)), all);
            match sels[k] {
                Selector::Slot(x) => {
                    assert(seq![x].drop_last() =~= Seq::<usize>::empty());
                    assert(seq![x].last() == x);
                    let ex = exclusion_end(sels, x);
                    if ex.is_none() {
                        assert(!excluded(all, x));
                        assert(not_excluded(Seq::<usize>::empty(), all) =~= Seq::<usize>::empty());
                        assert(not_excluded(seq![x], all) =~= seq![x]);
                        assert(done + seq![x] =~= done.push(x));
                        assert(done.push(x).drop_last() =~= done);
                        proof {
                            lemma_slot_position(items, x);
                        }
                        match find_slot(&index.items, x) {
                            Some(p) => {
                                out.push(&index.items[p]);
                                proof {
                                    let old_ix = ix;
                                    ix = ix.push(p as int);
                                    done = done.push(x);
                                    assert forall|q: int| 0 <= q < ix.len() implies *out@[q]
                                        == items[#[trigger] ix[q]] by {
                                        if q < old_ix.len() {
                                            assert(ix[q] == old_ix[q]);
                                        }
                                    }
                                }
                            },
                            None => {
                                proof {
                                    let stop = done.push(x);
                                    assert(stop.drop_last() =~= done);
                                    assert(resolve_spec(items, stop) == Err::<Seq<int>, usize>(x));
                                    assert(expand(all) == stop + rest);
                                    lemma_resolve_err_sticks(items, stop, rest);
                                }
                                return Err(IxError::SlotOutOfRange(x, total));
                            },
                        }
                    } else {
                        assert(excluded(all, x));
                        assert(not_excluded(Seq::<usize>::empty(), all) =~= Seq::<usize>::empty());
                        assert(seq![x].drop_last() =~= Seq::<usize>::empty());
                        assert(not_excluded(seq![x], all) =~= Seq::<usize>::empty());
                        assert(done + Seq::<usize>::empty() =~= done);
                    }
                },
                Selector::Range(a, b) => {
                    if a <= b {
                        let ghost base = done;
                        let ghost rs = range_seq(a, b);
                        let mut x = a;
                        assert(rs.take(0) =~= Seq::<usize>::empty());
                        assert(base + Seq::<usize>::empty() =~= base);
                        loop
                            invariant_except_break
                                done == base + not_excluded(rs.take(x - a), all),
                            invariant
                                a <= x <= b,
                                rs == range_seq(a, b),
                                sels@ == all,
                                all == self.0@,
                                items == index.items@,
                                total == items.len(),
                                expand(all) == base + not_excluded(rs, all) + rest,
                                resolve_spec(items, done) == Ok::<Seq<int>, usize>(ix),
                                out@.len() == ix.len(),
                                forall|q: int| 0 <= q < ix.len() ==> 0 <= #[trigger] ix[q] < items.len(),
                                forall|q: int| 0 <= q < ix.len() ==> *out@[q] == items[#[trigger] ix[q]],
                            ensures
                                done == base + not_excluded(rs, all),
                            decreases b - x,
                        {
                            assert(rs.take(x - a + 1) =~= rs.take(x - a).push(x));
                            assert(rs.take(x - a + 1).drop_last() =~= rs.take(x - a));
                            match exclusion_end(sels, x) {
                                Some(e) => {
                                    let last = if e < b {
                                        e
                                    } else {
                                        b
                                    };
                                    proof {
                                        let skipped = rs.subrange(x - a, last - a + 1);
                                        assert forall|i: int| 0 <= i < skipped.len() implies excluded(
                                            all,
                                            #[trigger] skipped[i],
                                        ) by {
                                            assert(skipped[i] == x + i);
                                        }
                                        lemma_not_excluded_none(skipped, all);
                                        assert(rs.take(last - a + 1) =~= rs.take(x - a) + skipped);
                                        lemma_not_excluded_concat(rs.take(x - a), skipped, all);
                                        assert(not_excluded(skipped, all) =~= Seq::<usize>::empty());
                                        assert(not_excluded(rs.take(x - a), all) + Seq::<usize>::empty()
                                            =~= not_excluded(rs.take(x - a), all));
                                    }
                                    if last == b {
                                        assert(rs.take(b - a + 1) =~= rs);
                                        break;
                                    }
                                    x = last + 1;
                                },
                                None => {
                                    assert(!excluded(all, x));
                                    assert(rs.take(x - a + 1).last() == x);
                                    assert(not_excluded(rs.take(x - a + 1), all) == not_excluded(
                                        rs.take(x - a),
                                        all,
                                    ).push(x));
                                    assert(done.push(x).drop_last() =~= done);
                                    proof {
                                        lemma_slot_position(items, x);
                                    }
                                    match find_slot(&index.items, x) {
                                        Some(p) => {
                                            out.push(&index.items[p]);
                                            proof {
                                                let old_ix = ix;
                                                ix = ix.push(p as int);
                                                assert(done.push(x) =~= base + not_excluded(
                                                    rs.take(x - a + 1),
                                                    all,
                                                ));
                                                done = done.push(x);
                                                assert forall|q: int| 0 <= q < ix.len() implies *out@[q]
                                                    == items[#[trigger] ix[q]] by {
                                                    if q < old_ix.len() {
                                                        assert(ix[q] == old_ix[q]);
                                                    }
                                                }
                                            }
                                        },
                                        None => {
                                            proof {
                                                let stop = done.push(x);
                                                assert(resolve_spec(items, stop) == Err::<Seq<int>, usize>(x));
                                                let after = rs.skip(x - a + 1);
                                                assert(rs =~= rs.take(x - a + 1) + after);
                                                lemma_not_excluded_concat(rs.take(x - a + 1), after, all);
                                                assert(stop =~= base + not_excluded(rs.take(x - a + 1), all));
                                                assert(expand(all) =~= stop + (not_excluded(after, all)
                                                    + rest));
                                                lemma_resolve_err_sticks(items, stop, not_excluded(after, all) + rest);
                                            }
                                            return Err(IxError::SlotOutOfRange(x, total));
                                        },
                                    }
                                    if x == b {
                                        assert(rs.take(b - a + 1) =~= rs);
                                        break;
                                    }
                                    x = x + 1;
                                },
                            }
                        }
                    } else {
                        assert(range_seq(a, b) =~= Seq::<usize>::empty());
                        assert(done + Seq::<usize>::empty() =~= done);
                    }
                },
                Selector::Exclude(_, _) => {
                    assert(done + Seq::<usize>::empty() =~= done);
                },
            }
        }
        assert(all.take(n as int) =~= all);
        Ok(out)
    }
}

/// The position of the first item carrying slot `n`.
pub open spec fn slot_position(items: Seq<Item>, n: usize) -> Option<int>
    decreases items.len(),
{
    if items.len() == 0 {
        None
    } else if items[0].slot == n {
        Some(0)
    } else {
        match slot_position(items.drop_first(), n) {
            Some(i) => Some(i + 1),
            None => None,
        }
    }
}

/// The positions of the items the slots name, or the first slot no item carries.
pub open spec fn resolve_spec(items: Seq<Item>, slots: Seq<usize>) -> Result<Seq<int>, usize>
    decreases slots.len(),
{
    if slots.len() == 0 {
        Ok(Seq::empty())
    } else {
        match resolve_spec(items, slots.drop_last()) {
            Err(n) => Err(n),
            Ok(ix) => match slot_position(items, slots.last()) {
                Some(p) => Ok(ix.push(p)),
                None => Err(slots.last()),
            },
        }
    }
}

pub proof fn lemma_slot_position(items: Seq<Item>, n: usize)
    ensures
        slot_position(items, n) matches Some(i) ==> 0 <= i < items.len() && items[i].slot == n
            && forall|j: int| 0 <= j < i ==> items[j].slot != n,
        slot_position(items, n) is None ==> forall|j: int|
            0 <= j < items.len() ==> items[j].slot != n,
    decreases items.len(),
{
    if items.len() > 0 {
        lemma_slot_position(items.drop_first(), n);
        assert forall|j: int| 0 < j < items.len() implies items[j] == items.drop_first()[j
            - 1] by {}
    }
}

proof fn lemma_slot_position_found(items: Seq<Item>, n: usize, i: int)
    requires
        0 <= i < items.len(),
        items[i].slot == n,
        forall|j: int| 0 <= j < i ==> items[j].slot != n,
    ensures
        slot_position(items, n) == Some(i),
    decreases items.len(),
{
    if i > 0 {
        assert forall|j: int| 0 <= j < i - 1 implies items.drop_first()[j].slot != n by {
            assert(items.drop_first()[j] == items[j + 1]);
        }
        lemma_slot_position_found(items.drop_first(), n, i - 1);
    }
}

proof fn lemma_slot_position_absent(items: Seq<Item>, n: usize)
    requires
        forall|j: int| 0 <= j < items.len() ==> items[j].slot != n,
    ensures
        slot_position(items, n) is None,
    decreases items.len(),
{
    if items.len() > 0 {
        assert forall|j: int| 0 <= j < items.len() - 1 implies items.drop_first()[j].slot
            != n by {
            assert(items.drop_first()[j] == items[j + 1]);
        }
        lemma_slot_position_absent(items.drop_first(), n);
    }
}

proof fn lemma_resolve_err_sticks(items: Seq<Item>, a: Seq<usize>, b: Seq<usize>)
    requires
        resolve_spec(items, a) is Err,
    ensures
        resolve_spec(items, a + b) == resolve_spec(items, a),
    decreases b.len(),
{
    if b.len() == 0 {
        assert(a + b == a);
    } else {
        lemma_resolve_err_sticks(items, a, b.drop_last());
        assert((a + b).drop_last() == a + b.drop_last());
    }
}

/// The position of the first item carrying slot `n`.
fn find_slot(items: &Vec<Item>, n: usize) -> (r: Option<usize>)
    ensures
        r matches Some(i) ==> slot_position(items@, n) == Some(i as int),
        r is None ==> slot_position(items@, n) is None,
{
    let len = items.len();
    for i in 0..len
        invariant
            len == items@.len(),
            forall|j: int| 0 <= j < i ==> items@[j].slot != n,
    {
        if items[i].slot == n {
            proof {
                lemma_slot_position_found(items@, n, i as int);
            }
            return Some(i);
        }
    }
    proof {
        lemma_slot_position_absent(items@, n);
    }
    None
}

/// What resolving slots against items numbered 1, 2, ..., `len` gives:
/// slot `n` names position `n - 1`; the first slot outside `1..=len` is
/// the error.
pub open spec fn numbered_resolution(slots: Seq<usize>, len: nat) -> Result<Seq<int>, usize>
    decreases slots.len(),
{
    if slots.len() == 0 {
        Ok(Seq::empty())
    } else {
        match numbered_resolution(slots.drop_last(), len) {
            Err(n) => Err(n),
            Ok(ix) => if 1 <= slots.last() <= len {
                Ok(ix.push(slots.last() - 1))
            } else {
                Err(slots.last())
            },
        }
    }
}

/// On a listing numbered 1, 2, 3, ..., slot `n` names the `n`-th item, and
/// a slot of 0 or past the end is refused: resolution never depends on
/// anything but the slot numbers and the listing's length.
pub proof fn law_numbered_resolution(items: Seq<Item>, slots: Seq<usize>)
    requires
        items.len() < usize::MAX,
    ensures
        resolve_spec(crate::item::with_sequential_slots(items), slots) == numbered_resolution(
            slots,
            items.len(),
        ),
    decreases slots.len(),
{
    let numbered = crate::item::with_sequential_slots(items);
    if slots.len() > 0 {
        law_numbered_resolution(items, slots.drop_last());
        let n = slots.last();
        if 1 <= n <= items.len() {
            assert(numbered[n - 1].slot == n);
            assert forall|j: int| 0 <= j < n - 1 implies numbered[j].slot != n by {
                assert(numbered[j].slot == j + 1);
            }
            lemma_slot_position_found(numbered, n, n - 1);
        } else {
            assert forall|j: int| 0 <= j < numbered.len() implies numbered[j].slot != n by {
                assert(numbered[j].slot == j + 1);
            }
            lemma_slot_position_absent(numbered, n);
        }
    }
}

} // verus!
