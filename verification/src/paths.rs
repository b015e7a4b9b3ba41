//! Unix paths as `std::path` compares them: by components, so that repeated
//! separators, a trailing separator and `.` components make no difference.

use vstd::prelude::*;
use vstd::string::*;

use crate::text::{chars_eq, chars_of, join, slice_chars, split_chars, split_on, string_of, views};

verus! {

/// The root component, standing for a leading `/`.
pub open spec fn root_component() -> Seq<char> {
    seq!['/']
}

/// The current-directory component `.`.
pub open spec fn cur_component() -> Seq<char> {
    seq!['.']
}

/// Whether a piece between separators is a normal component: not empty and
/// not `.`.
pub open spec fn is_normal_piece(p: Seq<char>) -> bool {
    p.len() > 0 && p != cur_component()
}

/// The normal components among `pieces`, in order.
pub open spec fn normal_pieces(pieces: Seq<Seq<char>>) -> Seq<Seq<char>>
    decreases pieces.len(),
{
    if pieces.len() == 0 {
        Seq::empty()
    } else if is_normal_piece(pieces.last()) {
        normal_pieces(pieces.drop_last()).push(pieces.last())
    } else {
        normal_pieces(pieces.drop_last())
    }
}

/// `Path::components` on Unix: the root if the path starts with `/`, a `.`
/// if a relative path starts with one, then the pieces between separators
/// that are neither empty nor `.`.
pub open spec fn path_components(p: Seq<char>) -> Seq<Seq<char>> {
    let pieces = split_on(p, '/');
    let rest = normal_pieces(pieces);
    if p.len() > 0 && p[0] == '/' {
        seq![root_component()] + rest
    } else if pieces[0] == cur_component() {
        seq![cur_component()] + rest
    } else {
        rest
    }
}

/// `Path::starts_with`: the components of `base` begin those of `path`.
pub open spec fn path_starts_with(path: Seq<char>, base: Seq<char>) -> bool {
    path_components(base).is_prefix_of(path_components(path))
}

/// `==` on paths: the same components.
pub open spec fn same_path(a: Seq<char>, b: Seq<char>) -> bool {
    path_components(a) == path_components(b)
}

/// `path` shown relative to `base`: the components after those of `base`,
/// joined by `/`, when `base` begins `path`; `path` unchanged otherwise.
pub open spec fn relative_to(path: Seq<char>, base: Seq<char>) -> Seq<char> {
    if path_starts_with(path, base) {
        join(path_components(path).skip(path_components(base).len() as int), seq!['/'])
    } else {
        path
    }
}

/// The components of a path.
pub fn components_of(p: &str) -> (r: Vec<Vec<char>>)
    ensures
        views(r@) == path_components(p@),
{
    let chars = chars_of(p);
    let pieces = split_chars(&chars, '/');
    proof {
        crate::text::lemma_split_on_nonempty(p@, '/');
    }
    let ghost pv = views(pieces@);
    let mut r: Vec<Vec<char>> = Vec::new();
    let dot: Vec<char> = vec!['.'];
    assert(dot@ =~= cur_component());
    assert(pv[0] == pieces@[0]@);
    if chars.len() > 0 && chars[0] == '/' {
        let root: Vec<char> = vec!['/'];
        assert(root@ =~= root_component());
        r.push(root);
        assert(views(r@) =~= seq![root_component()]);
    } else if chars_eq(&pieces[0], &dot) {
        let cur: Vec<char> = vec!['.'];
        assert(cur@ =~= cur_component());
        r.push(cur);
        assert(views(r@) =~= seq![cur_component()]);
    } else {
        assert(views(r@) =~= Seq::<Seq<char>>::empty());
    }
    let ghost head = views(r@);
    assert(normal_pieces(pv.take(0)) =~= Seq::<Seq<char>>::empty());
    let n = pieces.len();
    for j in 0..n
        invariant
            n == pieces@.len(),
            pv == views(pieces@),
            pv == split_on(p@, '/'),
            dot@ == cur_component(),
            views(r@) == head + normal_pieces(pv.take(j as int)),
    {
        assert(pv.take(j + 1).drop_last() =~= pv.take(j as int));
        assert(pv[j as int] == pieces@[j as int]@);
        let is_dot = chars_eq(&pieces[j], &dot);
        if pieces[j].len() > 0 && !is_dot {
            let w = slice_chars(&pieces[j], 0, pieces[j].len());
            assert(pieces@[j as int]@.subrange(0, pieces@[j as int]@.len() as int)
                =~= pieces@[j as int]@);
            let ghost before = r@;
            r.push(w);
            assert(views(r@) =~= views(before).push(w@));
        }
    }
    assert(pv.take(n as int) =~= pv);
    r
}

/// Whether `pre` begins `s`, piece by piece.
fn pieces_prefix(pre: &Vec<Vec<char>>, s: &Vec<Vec<char>>) -> (r: bool)
    ensures
        r == views(pre@).is_prefix_of(views(s@)),
{
    if pre.len() > s.len() {
        return false;
    }
    let n = pre.len();
    for i in 0..n
        invariant
            n == pre@.len() <= s@.len(),
            forall|k: int| 0 <= k < i ==> pre@[k]@ == s@[k]@,
    {
        if !chars_eq(&pre[i], &s[i]) {
            assert(views(pre@)[i as int] != views(s@).subrange(0, n as int)[i as int]);
            return false;
        }
    }
    assert(views(pre@) =~= views(s@).subrange(0, n as int));
    true
}

/// `dir.starts_with(target)`: whether `dir` lies at or below `target`.
pub fn is_path_in_dir(dir: &str, target: &str) -> (r: bool)
    ensures
        r == path_starts_with(dir@, target@),
{
    let d = components_of(dir);
    let t = components_of(target);
    pieces_prefix(&t, &d)
}

/// Whether two paths are equal as paths.
pub fn paths_equal(a: &str, b: &str) -> (r: bool)
    ensures
        r == same_path(a@, b@),
{
    let x = components_of(a);
    let y = components_of(b);
    let p = pieces_prefix(&x, &y);
    let q = pieces_prefix(&y, &x);
    proof {
        if p && q {
            assert(views(x@) =~= views(y@));
        }
    }
    p && q
}

/// The pieces `parts[from..]` joined by `sep`.
fn join_from(parts: &Vec<Vec<char>>, from: usize, sep: char) -> (r: String)
    requires
        from <= parts@.len(),
    ensures
        r@ == join(views(parts@).skip(from as int), seq![sep]),
{
    let ghost all = views(parts@).skip(from as int);
    let mut out: Vec<char> = Vec::new();
    let n = parts.len();
    let mut i = from;
    assert(all.take(0) =~= Seq::<Seq<char>>::empty());
    while i < n
        invariant
            from <= i <= n == parts@.len(),
            all == views(parts@).skip(from as int),
            out@ == join(all.take(i - from), seq![sep]),
        decreases n - i,
    {
        assert(all.take(i + 1 - from).drop_last() =~= all.take(i - from));
        assert(all[i - from] == parts@[i as int]@);
        if i > from {
            out.push(sep);
        }
        let m = parts[i].len();
        for k in 0..m
            invariant
                from <= i < n == parts@.len(),
                m == parts@[i as int]@.len(),
                out@ == join(all.take(i - from), seq![sep]) + (if i > from {
                    seq![sep]
                } else {
                    Seq::empty()
                }) + parts@[i as int]@.take(k as int),
        {
            assert(parts@[i as int]@.take(k + 1) =~= parts@[i as int]@.take(k as int).push(
                parts@[i as int]@[k as int],
            ));
            out.push(parts[i][k]);
        }
        assert(parts@[i as int]@.take(m as int) =~= parts@[i as int]@);
        i = i + 1;
    }
    assert(all.take(n - from) =~= all);
    string_of(&out)
}

/// `path.strip_prefix(base)` shown as text: `path` relative to `base`.
pub fn relative_path(path: &str, base: &str) -> (r: String)
    ensures
        r@ == relative_to(path@, base@),
{
    let p = components_of(path);
    let b = components_of(base);
    if pieces_prefix(&b, &p) {
        join_from(&p, b.len(), '/')
    } else {
        String::from_str(path)
    }
}

} // verus!
