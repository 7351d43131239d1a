//! Character-level string operations shared by the rest of the library.
//!
//! Strings are reasoned about through their views, sequences of Unicode
//! scalar values (`Seq<char>`).
use vstd::prelude::*;

verus! {

/// Lexicographic order on character sequences, comparing code points.
///
/// For UTF-8 text this is the same order as `str`'s byte-wise `Ord`.
pub open spec fn lex_lt(a: Seq<char>, b: Seq<char>) -> bool
    decreases a.len(),
{
    if a.len() == 0 {
        b.len() > 0
    } else if b.len() == 0 {
        false
    } else if a[0] != b[0] {
        a[0] < b[0]
    } else {
        lex_lt(a.drop_first(), b.drop_first())
    }
}

/// `s` ends with `suffix`.
pub open spec fn seq_ends_with(s: Seq<char>, suffix: Seq<char>) -> bool {
    suffix.len() <= s.len() && s.subrange(s.len() - suffix.len(), s.len() as int) == suffix
}

/// Whether `c` has the Unicode `White_Space` property (what `char::is_whitespace` tests).
pub open spec fn is_whitespace(c: char) -> bool {
    let u = c as u32;
    ||| 0x09 <= u <= 0x0d
    ||| u == 0x20
    ||| u == 0x85
    ||| u == 0xa0
    ||| u == 0x1680
    ||| 0x2000 <= u <= 0x200a
    ||| u == 0x2028
    ||| u == 0x2029
    ||| u == 0x202f
    ||| u == 0x205f
    ||| u == 0x3000
}

/// `s` without its leading whitespace.
pub open spec fn trim_start(s: Seq<char>) -> Seq<char>
    decreases s.len(),
{
    if s.len() > 0 && is_whitespace(s[0]) {
        trim_start(s.drop_first())
    } else {
        s
    }
}

/// `s` without its trailing whitespace.
pub open spec fn trim_end(s: Seq<char>) -> Seq<char>
    decreases s.len(),
{
    if s.len() > 0 && is_whitespace(s.last()) {
        trim_end(s.drop_last())
    } else {
        s
    }
}

/// `s` without leading and trailing whitespace (what `str::trim` returns).
pub open spec fn trim(s: Seq<char>) -> Seq<char> {
    trim_end(trim_start(s))
}

/// Every element comes strictly before the next: sorted, without duplicates.
pub open spec fn strictly_sorted(s: Seq<Seq<char>>) -> bool {
    forall|i: int, j: int| 0 <= i < j < s.len() ==> lex_lt(#[trigger] s[i], #[trigger] s[j])
}

/// The code point of `c` after mapping ASCII upper-case letters to lower case.
pub open spec fn ascii_lower_code(c: char) -> int {
    if 'A' <= c && c <= 'Z' {
        (c as int) + 32
    } else {
        c as int
    }
}

/// The code points of `s` (two strings are equal exactly when these are).
pub open spec fn codes(s: Seq<char>) -> Seq<int> {
    s.map_values(|c: char| c as int)
}

/// The code points of `s` with ASCII upper-case letters mapped to lower case
/// (the code points of what `str::to_ascii_lowercase` returns).
pub open spec fn ascii_lowercase_codes(s: Seq<char>) -> Seq<int> {
    s.map_values(|c: char| ascii_lower_code(c))
}

pub proof fn lemma_lex_irreflexive(a: Seq<char>)
    ensures
        !lex_lt(a, a),
    decreases a.len(),
{
    if a.len() > 0 {
        lemma_lex_irreflexive(a.drop_first());
    }
}

pub proof fn lemma_lex_total(a: Seq<char>, b: Seq<char>)
    ensures
        a == b || lex_lt(a, b) || lex_lt(b, a),
        !(lex_lt(a, b) && lex_lt(b, a)),
    decreases a.len(),
{
    if a.len() > 0 && b.len() > 0 {
        lemma_lex_total(a.drop_first(), b.drop_first());
        if a[0] == b[0] && a.drop_first() == b.drop_first() {
            assert(a =~= seq![a[0]] + a.drop_first());
            assert(b =~= seq![b[0]] + b.drop_first());
        }
    } else if a.len() == 0 && b.len() == 0 {
        assert(a =~= b);
    }
}

pub proof fn lemma_lex_transitive(a: Seq<char>, b: Seq<char>, c: Seq<char>)
    requires
        lex_lt(a, b),
        lex_lt(b, c),
    ensures
        lex_lt(a, c),
    decreases a.len(),
{
    if a.len() > 0 && b.len() > 0 && c.len() > 0 {
        if a[0] == b[0] && b[0] == c[0] {
            lemma_lex_transitive(a.drop_first(), b.drop_first(), c.drop_first());
        }
    }
}

/// The lexicographic order is a strict total order.
pub proof fn lemma_lex_strict_total_order()
    ensures
        forall|a: Seq<char>| !#[trigger] lex_lt(a, a),
        forall|a: Seq<char>, b: Seq<char>|
            a == b || #[trigger] lex_lt(a, b) || #[trigger] lex_lt(b, a),
        forall|a: Seq<char>, b: Seq<char>| #[trigger] lex_lt(a, b) ==> !lex_lt(b, a),
        forall|a: Seq<char>, b: Seq<char>, c: Seq<char>|
            #[trigger] lex_lt(a, b) && #[trigger] lex_lt(b, c) ==> lex_lt(a, c),
{
    assert forall|a: Seq<char>| !#[trigger] lex_lt(a, a) by {
        lemma_lex_irreflexive(a);
    }
    assert forall|a: Seq<char>, b: Seq<char>|
        a == b || #[trigger] lex_lt(a, b) || #[trigger] lex_lt(b, a) by {
        lemma_lex_total(a, b);
    }
    assert forall|a: Seq<char>, b: Seq<char>| #[trigger] lex_lt(a, b) implies !lex_lt(b, a) by {
        lemma_lex_total(a, b);
    }
    assert forall|a: Seq<char>, b: Seq<char>, c: Seq<char>|
        #[trigger] lex_lt(a, b) && #[trigger] lex_lt(b, c) implies lex_lt(a, c) by {
        lemma_lex_transitive(a, b, c);
    }
}

/// The characters of `s`, one element per Unicode scalar value.
pub fn chars_of(s: &str) -> (v: Vec<char>)
    ensures
        v@ == s@,
{
    let n = s.unicode_len();
    let mut v: Vec<char> = Vec::new();
    let mut i: usize = 0;
    while i < n
        invariant
            n == s@.len(),
            i <= n,
            v@ == s@.subrange(0, i as int),
        decreases n - i,
    {
        let c = s.get_char(i);
        v.push(c);
        i = i + 1;
        assert(v@ =~= s@.subrange(0, i as int));
    }
    assert(s@.subrange(0, n as int) =~= s@);
    v
}

/// `a` followed by `b`.
pub fn concat(a: &str, b: &str) -> (r: String)
    ensures
        r@ == a@ + b@,
{
    String::from_str(a).concat(b)
}

/// A fresh `String` holding the characters of `s`.
pub fn owned(s: &str) -> (r: String)
    ensures
        r@ == s@,
{
    String::from_str(s)
}

/// Whether the two character vectors are equal.
pub fn chars_eq(a: &Vec<char>, b: &Vec<char>) -> (r: bool)
    ensures
        r == (a@ == b@),
{
    if a.len() != b.len() {
        return false;
    }
    let mut i: usize = 0;
    while i < a.len()
        invariant
            a.len() == b.len(),
            i <= a.len(),
            forall|k: int| 0 <= k < i ==> a@[k] == b@[k],
        decreases a.len() - i,
    {
        if a[i] != b[i] {
            return false;
        }
        i = i + 1;
    }
    assert(a@ =~= b@);
    true
}

/// Whether the two strings hold the same characters.
pub fn str_eq(a: &str, b: &str) -> (r: bool)
    ensures
        r == (a@ == b@),
{
    let va = chars_of(a);
    let vb = chars_of(b);
    chars_eq(&va, &vb)
}

/// Whether `a` comes strictly before `b` in the lexicographic order.
pub fn chars_lt(a: &Vec<char>, b: &Vec<char>) -> (r: bool)
    ensures
        r == lex_lt(a@, b@),
{
    let mut i: usize = 0;
    assert(a@.skip(0) =~= a@);
    assert(b@.skip(0) =~= b@);
    while i < a.len() && i < b.len()
        invariant
            i <= a.len(),
            i <= b.len(),
            lex_lt(a@, b@) == lex_lt(a@.skip(i as int), b@.skip(i as int)),
        decreases a.len() - i,
    {
        let x = a[i];
        let y = b[i];
        assert(a@.skip(i as int)[0] == x);
        assert(b@.skip(i as int)[0] == y);
        if x != y {
            return x < y;
        }
        assert(a@.skip(i as int).drop_first() =~= a@.skip(i + 1));
        assert(b@.skip(i as int).drop_first() =~= b@.skip(i + 1));
        i = i + 1;
    }
    i < b.len()
}

/// Whether `a` comes strictly before `b` in the lexicographic order.
pub fn str_lt(a: &str, b: &str) -> (r: bool)
    ensures
        r == lex_lt(a@, b@),
{
    let va = chars_of(a);
    let vb = chars_of(b);
    chars_lt(&va, &vb)
}

/// Whether `s` ends with `suffix`.
pub fn chars_end_with(s: &Vec<char>, suffix: &Vec<char>) -> (r: bool)
    ensures
        r == seq_ends_with(s@, suffix@),
{
    if suffix.len() > s.len() {
        return false;
    }
    let off = s.len() - suffix.len();
    let mut i: usize = 0;
    while i < suffix.len()
        invariant
            off + suffix.len() == s.len(),
            i <= suffix.len(),
            forall|k: int| 0 <= k < i ==> s@[off + k] == suffix@[k],
        decreases suffix.len() - i,
    {
        if s[off + i] != suffix[i] {
            assert(s@.subrange(off as int, s.len() as int)[i as int] != suffix@[i as int]);
            return false;
        }
        i = i + 1;
    }
    assert(s@.subrange(off as int, s.len() as int) =~= suffix@);
    true
}

/// Whether `s` ends with `suffix`.
pub fn str_ends_with(s: &str, suffix: &str) -> (r: bool)
    ensures
        r == seq_ends_with(s@, suffix@),
{
    let vs = chars_of(s);
    let vx = chars_of(suffix);
    chars_end_with(&vs, &vx)
}

/// Whether `c` is a whitespace character.
pub fn char_is_whitespace(c: char) -> (r: bool)
    ensures
        r == is_whitespace(c),
{
    let u = c as u32;
    (0x09 <= u && u <= 0x0d) || u == 0x20 || u == 0x85 || u == 0xa0 || u == 0x1680 || (0x2000
        <= u && u <= 0x200a) || u == 0x2028 || u == 0x2029 || u == 0x202f || u == 0x205f || u
        == 0x3000
}

proof fn lemma_trim_start_skip(s: Seq<char>, i: int)
    requires
        0 <= i < s.len(),
        is_whitespace(s[i]),
    ensures
        trim_start(s.skip(i)) == trim_start(s.skip(i + 1)),
{
    assert(s.skip(i).drop_first() =~= s.skip(i + 1));
}

proof fn lemma_trim_end_take(s: Seq<char>, j: int)
    requires
        0 < j <= s.len(),
        is_whitespace(s[j - 1]),
    ensures
        trim_end(s.take(j)) == trim_end(s.take(j - 1)),
{
    assert(s.take(j).drop_last() =~= s.take(j - 1));
}

/// `s` without leading and trailing whitespace.
pub fn trim_str(s: &str) -> (r: String)
    ensures
        r@ == trim(s@),
{
    let v = chars_of(s);
    let n = v.len();
    let mut i: usize = 0;
    assert(s@.skip(0) =~= s@);
    while i < n && char_is_whitespace(v[i])
        invariant
            n == s@.len(),
            v@ == s@,
            i <= n,
            trim_start(s@) == trim_start(s@.skip(i as int)),
        decreases n - i,
    {
        proof {
            lemma_trim_start_skip(s@, i as int);
        }
        i = i + 1;
    }
    let ghost t = s@.skip(i as int);
    assert(trim_start(s@) == t);
    let mut j: usize = n;
    assert(t.take(t.len() as int) =~= t);
    while j > i && char_is_whitespace(v[j - 1])
        invariant
            n == s@.len(),
            v@ == s@,
            i <= j <= n,
            t == s@.skip(i as int),
            trim_end(t) == trim_end(t.take(j - i)),
        decreases j,
    {
        proof {
            assert(t[j - i - 1] == s@[j - 1]);
            lemma_trim_end_take(t, j - i);
        }
        j = j - 1;
    }
    assert(trim_end(t.take(j - i)) == t.take(j - i)) by {
        if j > i {
            assert(t.take(j - i).last() == s@[j - 1]);
        }
    }
    let sub = s.substring_char(i, j);
    assert(sub@ =~= t.take(j - i));
    String::from_str(sub)
}

/// Insert `s` into the strictly sorted `r`, unless it is already there.
fn insert_sorted(r: &mut Vec<String>, s: &String)
    requires
        strictly_sorted(old(r).deep_view()),
    ensures
        strictly_sorted(final(r).deep_view()),
        forall|d: Seq<char>|
            final(r).deep_view().contains(d) <==> (old(r).deep_view().contains(d) || d == s@),
{
    let sv = chars_of(s.as_str());
    let mut p: usize = 0;
    let mut found = false;
    let mut stop = false;
    while p < r.len() && !stop
        invariant
            sv@ == s@,
            p <= r.len(),
            r == old(r),
            strictly_sorted(r.deep_view()),
            forall|k: int| 0 <= k < p ==> lex_lt(#[trigger] r.deep_view()[k], s@),
            stop ==> p < r.len() && !lex_lt(r.deep_view()[p as int], s@) && found == (
            r.deep_view()[p as int] == s@),
            !stop ==> !found,
        decreases r.len() - p, if stop { 0int } else { 1int },
    {
        let cv = chars_of(r[p].as_str());
        if !chars_lt(&cv, &sv) {
            found = chars_eq(&cv, &sv);
            stop = true;
        } else {
            p = p + 1;
        }
    }
    proof {
        lemma_lex_strict_total_order();
    }
    let ghost old_dv = r.deep_view();
    assert(old_dv == old(r).deep_view());
    if found {
        assert(r.deep_view()[p as int] == s@);
        assert forall|d: Seq<char>| r.deep_view().contains(d) <==> (old_dv.contains(d) || d == s@) by {
            if d == s@ {
                assert(r.deep_view()[p as int] == d);
            }
        }
        return;
    }
    // every element from `p` on comes after `s`
    assert(forall|k: int| p <= k < old_dv.len() ==> lex_lt(s@, #[trigger] old_dv[k])) by {
        assert forall|k: int| p <= k < old_dv.len() implies lex_lt(s@, #[trigger] old_dv[k]) by {
            assert(stop);
            lemma_lex_total(old_dv[p as int], s@);
            if k > p {
                assert(lex_lt(old_dv[p as int], old_dv[k]));
                lemma_lex_transitive(s@, old_dv[p as int], old_dv[k]);
            }
        }
    }
    r.insert(p, s.clone());
    assert(r.deep_view() =~= old_dv.insert(p as int, s@));
    assert(strictly_sorted(r.deep_view())) by {
        assert forall|i: int, j: int| 0 <= i < j < r.deep_view().len() implies lex_lt(
            #[trigger] r.deep_view()[i],
            #[trigger] r.deep_view()[j],
        ) by {
            if j < p {
            } else if i < p && j == p {
            } else if i < p && j > p {
                assert(lex_lt(old_dv[i], s@));
                assert(lex_lt(s@, old_dv[j - 1]));
            } else if i == p {
            } else {
                assert(old_dv[i - 1] == r.deep_view()[i]);
                assert(old_dv[j - 1] == r.deep_view()[j]);
            }
        }
    }
    assert forall|d: Seq<char>| #[trigger] r.deep_view().contains(d) <==> (old_dv.contains(d) || d == s@) by {
        if d == s@ {
            assert(r.deep_view()[p as int] == d);
        }
        if old_dv.contains(d) {
            let k = choose|k: int| 0 <= k < old_dv.len() && old_dv[k] == d;
            if k < p {
                assert(r.deep_view()[k] == d);
            } else {
                assert(r.deep_view()[k + 1] == d);
            }
        }
        if r.deep_view().contains(d) {
            let k = choose|k: int| 0 <= k < r.deep_view().len() && r.deep_view()[k] == d;
            if k < p {
                assert(old_dv[k] == d);
            } else if k > p {
                assert(old_dv[k - 1] == d);
            }
        }
    }
}

/// The distinct elements of `items`, in ascending order (what sorting and
/// then removing consecutive duplicates gives).
pub fn sorted_unique(items: &Vec<String>) -> (r: Vec<String>)
    ensures
        strictly_sorted(r.deep_view()),
        forall|d: Seq<char>| r.deep_view().contains(d) <==> items.deep_view().contains(d),
{
    let mut r: Vec<String> = Vec::new();
    let mut i: usize = 0;
    assert(r.deep_view() =~= Seq::<Seq<char>>::empty());
    while i < items.len()
        invariant
            i <= items.len(),
            strictly_sorted(r.deep_view()),
            forall|d: Seq<char>|
                r.deep_view().contains(d) <==> items.deep_view().subrange(0, i as int).contains(d),
        decreases items.len() - i,
    {
        insert_sorted(&mut r, &items[i]);
        let ghost pre = items.deep_view().subrange(0, i as int);
        let ghost post = items.deep_view().subrange(0, i + 1);
        assert(post =~= pre.push(items@[i as int]@));
        assert forall|d: Seq<char>| post.contains(d) <==> (pre.contains(d) || d == items@[i as int]@) by {
            if pre.contains(d) {
                let k = choose|k: int| 0 <= k < pre.len() && pre[k] == d;
                assert(post[k] == d);
            }
            if post.contains(d) {
                let k = choose|k: int| 0 <= k < post.len() && post[k] == d;
                if k < pre.len() {
                    assert(pre[k] == d);
                }
            }
            if d == items@[i as int]@ {
                assert(post[i as int] == d);
            }
        }
        i = i + 1;
    }
    assert(items.deep_view().subrange(0, items.len() as int) =~= items.deep_view());
    r
}

} // verus!
