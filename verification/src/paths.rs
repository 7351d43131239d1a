//! Unix path strings: joining a file name, the last component, extensions.
//!
//! Paths are handled as text with `/` as the separator, following what
//! `std::path::Path` does with the components of such a path.
use vstd::prelude::*;

use crate::text::{chars_of, concat};

verus! {

/// `p` without trailing separators and trailing `.` components (which do not
/// count as components); a lone root `/` is kept.
pub open spec fn strip_tail(p: Seq<char>) -> Seq<char>
    decreases p.len(),
{
    if p.len() > 1 && p.last() == '/' {
        strip_tail(p.drop_last())
    } else if p.len() >= 2 && p.last() == '.' && p[p.len() - 2] == '/' {
        strip_tail(p.drop_last())
    } else {
        p
    }
}

/// The text after the last separator of `p` (all of `p` if it has none).
pub open spec fn last_segment(p: Seq<char>) -> Seq<char>
    decreases p.len(),
{
    if p.len() == 0 {
        p
    } else if p.last() == '/' {
        Seq::empty()
    } else {
        last_segment(p.drop_last()).push(p.last())
    }
}

/// The last component of `p` as text (empty for a root, `.` for a lone `.`).
pub open spec fn last_component(p: Seq<char>) -> Seq<char> {
    last_segment(strip_tail(p))
}

/// `p` has the extension `ext`: its last component ends with `.` and `ext`,
/// and the dot is not the component's first character.
pub open spec fn has_extension(p: Seq<char>, ext: Seq<char>) -> bool {
    let f = last_component(p);
    &&& f.len() > ext.len() + 1
    &&& f.subrange(f.len() - ext.len() - 1, f.len() as int) == seq!['.'] + ext
}

/// `dir` with the relative file name `name` appended (what `Path::join` gives).
pub open spec fn join(dir: Seq<char>, name: Seq<char>) -> Seq<char> {
    if dir.len() == 0 {
        name
    } else if dir.last() == '/' {
        dir + name
    } else {
        dir + seq!['/'] + name
    }
}

proof fn lemma_strip_take(p: Seq<char>, j: int)
    requires
        0 < j <= p.len(),
        (j > 1 && p[j - 1] == '/') || (j >= 2 && p[j - 1] == '.' && p[j - 2] == '/'),
    ensures
        strip_tail(p.take(j)) == strip_tail(p.take(j - 1)),
{
    assert(p.take(j).drop_last() =~= p.take(j - 1));
}

proof fn lemma_segment_take(p: Seq<char>, i: int, j: int)
    requires
        0 < i <= j <= p.len(),
        p[i - 1] != '/',
        last_segment(p.take(j)) == last_segment(p.take(i)) + p.subrange(i, j),
    ensures
        last_segment(p.take(j)) == last_segment(p.take(i - 1)) + p.subrange(i - 1, j),
{
    assert(p.take(i).drop_last() =~= p.take(i - 1));
    assert(p.take(i).last() == p[i - 1]);
    assert(last_segment(p.take(i)) == last_segment(p.take(i - 1)).push(p[i - 1]));
    assert(last_segment(p.take(i - 1)).push(p[i - 1]) + p.subrange(i, j) =~= last_segment(
        p.take(i - 1),
    ) + p.subrange(i - 1, j));
}

/// The bounds of the last component of the path whose characters are `v`.
pub fn last_component_bounds(v: &Vec<char>) -> (r: (usize, usize))
    ensures
        r.0 <= r.1 <= v.len(),
        v@.subrange(r.0 as int, r.1 as int) == last_component(v@),
{
    let mut j: usize = v.len();
    assert(v@.take(j as int) =~= v@);
    while (j > 1 && v[j - 1] == '/') || (j >= 2 && v[j - 1] == '.' && v[j - 2] == '/')
        invariant
            j <= v.len(),
            strip_tail(v@) == strip_tail(v@.take(j as int)),
        decreases j,
    {
        proof {
            lemma_strip_take(v@, j as int);
        }
        j = j - 1;
    }
    let ghost t = v@.take(j as int);
    assert(strip_tail(t) == t) by {
        if j >= 2 {
            assert(t[t.len() - 2] == v@[j - 2]);
        }
        if j >= 1 {
            assert(t.last() == v@[j - 1]);
        }
    }
    let mut i: usize = j;
    assert(last_segment(t) =~= last_segment(v@.take(i as int)) + v@.subrange(i as int, j as int));
    while i > 0 && v[i - 1] != '/'
        invariant
            i <= j <= v.len(),
            t == v@.take(j as int),
            last_segment(t) == last_segment(v@.take(i as int)) + v@.subrange(i as int, j as int),
        decreases i,
    {
        proof {
            lemma_segment_take(v@, i as int, j as int);
        }
        i = i - 1;
    }
    assert(last_segment(v@.take(i as int)) =~= Seq::<char>::empty()) by {
        if i > 0 {
            assert(v@.take(i as int).last() == v@[i - 1]);
        }
    }
    assert(last_segment(t) =~= v@.subrange(i as int, j as int));
    (i, j)
}

/// Whether the last component of `path` is exactly `name`.
pub fn last_component_is(path: &str, name: &str) -> (r: bool)
    ensures
        r == (last_component(path@) == name@),
{
    let v = chars_of(path);
    let (i, j) = last_component_bounds(&v);
    let nv = chars_of(name);
    if j - i != nv.len() {
        return false;
    }
    let mut k: usize = 0;
    while k < nv.len()
        invariant
            i + nv.len() == j,
            j <= v.len(),
            v@ == path@,
            nv@ == name@,
            v@.subrange(i as int, j as int) == last_component(path@),
            k <= nv.len(),
            forall|q: int| 0 <= q < k ==> v@[i + q] == nv@[q],
        decreases nv.len() - k,
    {
        if v[i + k] != nv[k] {
            assert(v@.subrange(i as int, j as int)[k as int] != nv@[k as int]);
            return false;
        }
        k = k + 1;
    }
    assert(v@.subrange(i as int, j as int) =~= nv@);
    true
}

/// Whether `path` has the extension `ext` (given without its dot).
pub fn path_has_extension(path: &str, ext: &str) -> (r: bool)
    ensures
        r == has_extension(path@, ext@),
{
    let v = chars_of(path);
    let (i, j) = last_component_bounds(&v);
    let ev = chars_of(ext);
    let ghost f = v@.subrange(i as int, j as int);
    if j - i <= ev.len() || j - i - ev.len() <= 1 {
        return false;
    }
    let off = j - ev.len() - 1;
    if v[off] != '.' {
        assert(f.subrange(f.len() - ev@.len() - 1, f.len() as int)[0] != (seq!['.'] + ev@)[0]);
        return false;
    }
    let mut k: usize = 0;
    while k < ev.len()
        invariant
            off + 1 + ev.len() == j,
            i <= off,
            j <= v.len(),
            v@ == path@,
            ev@ == ext@,
            f == v@.subrange(i as int, j as int),
            f == last_component(path@),
            k <= ev.len(),
            forall|q: int| 0 <= q < k ==> v@[off + 1 + q] == ev@[q],
        decreases ev.len() - k,
    {
        if v[off + 1 + k] != ev[k] {
            assert(f.subrange(f.len() - ev@.len() - 1, f.len() as int)[k + 1] != (seq!['.'] + ev@)[k
                + 1]);
            return false;
        }
        k = k + 1;
    }
    assert(f.subrange(f.len() - ev@.len() - 1, f.len() as int) =~= seq!['.'] + ev@);
    true
}

/// `dir` with the relative file name `name` appended.
pub fn join_path(dir: &str, name: &str) -> (r: String)
    ensures
        r@ == join(dir@, name@),
{
    let v = chars_of(dir);
    if v.len() == 0 {
        String::from_str(name)
    } else if v[v.len() - 1] == '/' {
        concat(dir, name)
    } else {
        let with_sep = concat(dir, "/");
        proof {
            reveal_strlit("/");
        }
        assert(with_sep@ =~= dir@ + seq!['/']);
        concat(with_sep.as_str(), name)
    }
}

} // verus!
