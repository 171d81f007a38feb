//! File paths as text, with `/` between the components.
//!
//! A path is compared component by component: repeated separators, a trailing
//! separator and a `.` after the beginning do not count.
use vstd::prelude::*;

use crate::text::{
    chars_of, find_char, index_of, lemma_leading, lemma_leading_bounds, other_than, slice_of, string_of,
};

verus! {

/// A path that begins at the root.
pub open spec fn absolute(s: Seq<char>) -> bool {
    s.len() > 0 && s[0] == '/'
}

/// Where the stretch without a separator that begins at `i` ends.
pub open spec fn segment_end(s: Seq<char>, i: int) -> int {
    i + index_of(s.skip(i), '/')
}

/// Whether the stretch from `i` to `e` counts as a component.
pub open spec fn counts(s: Seq<char>, i: int, e: int) -> bool {
    i < e && !(i > 0 && e == i + 1 && s[i] == '.')
}

/// Where the components from position `i` on begin and end.
pub open spec fn spans_from(s: Seq<char>, i: int) -> Seq<(int, int)>
    decreases s.len() - i,
{
    if i < 0 || i >= s.len() {
        Seq::empty()
    } else {
        let e = segment_end(s, i);
        let rest = if i <= e < s.len() {
            spans_from(s, e + 1)
        } else {
            Seq::empty()
        };
        if counts(s, i, e) {
            seq![(i, e)] + rest
        } else {
            rest
        }
    }
}

/// Where the components of `s` begin and end; the root is a component of its own.
pub open spec fn spans(s: Seq<char>) -> Seq<(int, int)> {
    if absolute(s) {
        seq![(0int, 1int)] + spans_from(s, 1)
    } else {
        spans_from(s, 0)
    }
}

/// The components of `s`.
pub open spec fn components(s: Seq<char>) -> Seq<Seq<char>> {
    spans(s).map_values(|p: (int, int)| s.subrange(p.0, p.1))
}

/// The two texts name the same path.
pub open spec fn same_path(a: Seq<char>, b: Seq<char>) -> bool {
    components(a) == components(b)
}

/// The path `s` lies at or below `base`.
pub open spec fn below(s: Seq<char>, base: Seq<char>) -> bool {
    components(base).is_prefix_of(components(s))
}

/// What is left of `s` from its component number `k` on.
pub open spec fn from_component(s: Seq<char>, k: int) -> Seq<char> {
    if 0 <= k < spans(s).len() {
        s.subrange(spans(s)[k].0, spans(s).last().1)
    } else {
        Seq::empty()
    }
}

/// `s` relative to `base`, where it lies at or below it.
pub open spec fn relative_to(s: Seq<char>, base: Seq<char>) -> Option<Seq<char>> {
    if below(s, base) {
        Some(from_component(s, components(base).len() as int))
    } else {
        None
    }
}

/// `s` relative to `base`, or `s` itself where it does not lie below it.
pub open spec fn relative_or_self(s: Seq<char>, base: Seq<char>) -> Seq<char> {
    match relative_to(s, base) {
        Some(rel) => rel,
        None => s,
    }
}

/// The directory that holds `s`; the root and the empty path have none.
pub open spec fn parent(s: Seq<char>) -> Option<Seq<char>> {
    let all = spans(s);
    if all.len() == 0 || (all.len() == 1 && absolute(s)) {
        None
    } else if all.len() == 1 {
        Some(Seq::empty())
    } else {
        Some(s.take(all[all.len() - 2].1))
    }
}

/// The directories above `s`, nearest first.
pub open spec fn ancestors(s: Seq<char>) -> Seq<Seq<char>>
    decreases s.len(),
{
    match parent(s) {
        Some(p) => {
            if p.len() < s.len() {
                seq![p] + ancestors(p)
            } else {
                Seq::empty()
            }
        },
        None => Seq::empty(),
    }
}

/// `p` taken from the directory `base`: an absolute `p` stays as it is.
pub open spec fn joined(base: Seq<char>, p: Seq<char>) -> Seq<char> {
    if absolute(p) {
        p
    } else if base.len() > 0 && base.last() != '/' {
        base.push('/') + p
    } else {
        base + p
    }
}

/// The spans lie within the text, one after another, and none is empty.
pub proof fn lemma_spans_from(s: Seq<char>, i: int)
    requires
        0 <= i,
    ensures
        forall|k: int|
            0 <= k < spans_from(s, i).len() ==> i <= (#[trigger] spans_from(s, i)[k]).0
                < spans_from(s, i)[k].1 <= s.len(),
        forall|k: int, l: int|
            0 <= k < l < spans_from(s, i).len() ==> (#[trigger] spans_from(s, i)[k]).1 < (
            #[trigger] spans_from(s, i)[l]).0,
    decreases s.len() - i,
{
    if i < s.len() {
        let e = segment_end(s, i);
        lemma_leading_bounds(s.skip(i), other_than('/'));
        let rest = if e < s.len() {
            spans_from(s, e + 1)
        } else {
            Seq::empty()
        };
        if e < s.len() {
            lemma_spans_from(s, e + 1);
        }
        let all = spans_from(s, i);
        let shift = all.len() - rest.len();
        assert forall|k: int| 0 <= k < all.len() implies i <= (#[trigger] all[k]).0 < all[k].1
            <= s.len() by {
            if k >= shift {
                assert(all[k] == rest[k - shift]);
            }
        }
        assert forall|k: int, l: int| 0 <= k < l < all.len() implies (#[trigger] all[k]).1 < (
        #[trigger] all[l]).0 by {
            assert(all[l] == rest[l - shift]);
            if k >= shift {
                assert(all[k] == rest[k - shift]);
            }
        }
    }
}

pub proof fn lemma_spans(s: Seq<char>)
    ensures
        forall|k: int|
            0 <= k < spans(s).len() ==> 0 <= (#[trigger] spans(s)[k]).0 < spans(s)[k].1 <= s.len(),
        forall|k: int, l: int|
            0 <= k < l < spans(s).len() ==> (#[trigger] spans(s)[k]).1 <= (#[trigger] spans(
                s,
            )[l]).0,
{
    lemma_spans_from(s, 0);
    lemma_spans_from(s, 1);
}

/// A path is longer than the directory that holds it.
pub proof fn parent_is_shorter(s: Seq<char>)
    ensures
        parent(s) matches Some(p) ==> p.len() < s.len(),
{
    lemma_spans(s);
    let all = spans(s);
    if all.len() >= 2 {
        assert(all[all.len() - 2].1 <= all[all.len() - 1].0);
    } else if all.len() == 1 {
        assert(all[0].0 < all[0].1);
    }
}

/// Every path lies below itself, and relative to itself nothing is left.
pub proof fn path_is_below_itself(s: Seq<char>)
    ensures
        below(s, s),
        relative_to(s, s) == Some(Seq::<char>::empty()),
{
}

/// A path that lies below a directory of a directory lies below the outer one.
pub proof fn below_is_transitive(a: Seq<char>, b: Seq<char>, c: Seq<char>)
    requires
        below(a, b),
        below(b, c),
    ensures
        below(a, c),
{
    assert(components(a).subrange(0, components(c).len() as int) =~= components(b).subrange(
        0,
        components(c).len() as int,
    ));
}

/// Whether the path begins at the root.
pub fn is_absolute(s: &str) -> (r: bool)
    ensures
        r == absolute(s@),
{
    let v = chars_of(s);
    v.len() > 0 && v[0] == '/'
}

/// The spans of the components, as positions in the text.
pub open spec fn span_ints(v: Seq<(usize, usize)>) -> Seq<(int, int)> {
    v.map_values(|p: (usize, usize)| (p.0 as int, p.1 as int))
}

/// Where the components of `s` begin and end.
pub fn spans_of(s: &[char]) -> (v: Vec<(usize, usize)>)
    ensures
        span_ints(v@) == spans(s@),
{
    let mut v: Vec<(usize, usize)> = Vec::new();
    let n: usize = s.len();
    let mut i: usize = 0;
    if n > 0 && s[0] == '/' {
        v.push((0, 1));
        i = 1;
        assert(span_ints(v@) =~= seq![(0int, 1int)]);
    } else {
        assert(span_ints(v@) =~= Seq::<(int, int)>::empty());
    }
    assert(span_ints(v@) + spans_from(s@, i as int) =~= spans(s@));
    while i < n
        invariant
            n == s@.len(),
            span_ints(v@) + spans_from(s@, i as int) == spans(s@),
        decreases n - i,
    {
        let ghost before = span_ints(v@);
        let rest = slice_of(s, i, n);
        assert(rest@ =~= s@.skip(i as int));
        let e: usize = i + find_char(rest.as_slice(), '/');
        assert(e == segment_end(s@, i as int));
        let ghost tail = if e < n {
            spans_from(s@, e + 1)
        } else {
            Seq::empty()
        };
        if i < e && !(i > 0 && e == i + 1 && s[i] == '.') {
            v.push((i, e));
            assert(span_ints(v@) =~= before.push((i as int, e as int)));
            assert(before + (seq![(i as int, e as int)] + tail) =~= span_ints(v@) + tail);
        }
        if e == n {
            assert(tail =~= Seq::<(int, int)>::empty());
            assert(span_ints(v@) + tail =~= span_ints(v@));
            return v;
        }
        i = e + 1;
    }
    assert(span_ints(v@) + spans_from(s@, i as int) =~= span_ints(v@));
    v
}

/// The components of `s`.
pub fn components_of(s: &[char]) -> (v: Vec<Vec<char>>)
    ensures
        v@.len() == components(s@).len(),
        forall|i: int| 0 <= i < v@.len() ==> (#[trigger] v@[i])@ == components(s@)[i],
{
    let all = spans_of(s);
    proof {
        lemma_spans(s@);
    }
    let mut v: Vec<Vec<char>> = Vec::new();
    for k in 0..all.len()
        invariant
            span_ints(all@) == spans(s@),
            forall|k: int|
                0 <= k < spans(s@).len() ==> 0 <= (#[trigger] spans(s@)[k]).0 < spans(s@)[k].1
                    <= s@.len(),
            v@.len() == k,
            forall|i: int| 0 <= i < k ==> (#[trigger] v@[i])@ == components(s@)[i],
    {
        assert(span_ints(all@)[k as int] == spans(s@)[k as int]);
        v.push(slice_of(s, all[k].0, all[k].1));
    }
    assert(span_ints(all@).len() == all@.len());
    v
}

/// Whether the components of `base` are the first components of `s`.
fn is_below(s: &[char], base: &[char]) -> (r: bool)
    ensures
        r == below(s@, base@),
{
    let a = components_of(s);
    let b = components_of(base);
    if b.len() > a.len() {
        return false;
    }
    for i in 0..b.len()
        invariant
            a@.len() == components(s@).len(),
            b@.len() == components(base@).len(),
            b@.len() <= a@.len(),
            forall|k: int| 0 <= k < a@.len() ==> (#[trigger] a@[k])@ == components(s@)[k],
            forall|k: int| 0 <= k < b@.len() ==> (#[trigger] b@[k])@ == components(base@)[k],
            forall|k: int| 0 <= k < i ==> components(s@)[k] == components(base@)[k],
    {
        if !crate::text::eq_chars(a[i].as_slice(), b[i].as_slice()) {
            assert(a@[i as int]@ != b@[i as int]@);
            assert(components(s@).subrange(0, components(base@).len() as int)[i as int]
                != components(base@)[i as int]);
            return false;
        }
        assert(a@[i as int]@ == b@[i as int]@);
    }
    assert(components(s@).subrange(0, components(base@).len() as int) =~= components(base@));
    true
}

/// Whether the path `s` lies at or below `base`.
pub fn starts_with(s: &str, base: &str) -> (r: bool)
    ensures
        r == below(s@, base@),
{
    is_below(chars_of(s).as_slice(), chars_of(base).as_slice())
}

/// Whether the two texts name the same path.
pub fn same(a: &str, b: &str) -> (r: bool)
    ensures
        r == same_path(a@, b@),
{
    let x = chars_of(a);
    let y = chars_of(b);
    let r = is_below(x.as_slice(), y.as_slice()) && is_below(y.as_slice(), x.as_slice());
    proof {
        if r {
            assert(components(a@).subrange(0, components(b@).len() as int) =~= components(a@));
        }
        if same_path(a@, b@) {
            path_is_below_itself(a@);
            path_is_below_itself(b@);
        }
    }
    r
}

/// `s` relative to `base`, where it lies at or below it.
pub fn strip_prefix(s: &str, base: &str) -> (r: Option<String>)
    ensures
        match r {
            Some(rel) => relative_to(s@, base@) == Some(rel@),
            None => relative_to(s@, base@) is None,
        },
{
    let x = chars_of(s);
    let y = chars_of(base);
    if !is_below(x.as_slice(), y.as_slice()) {
        return None;
    }
    let all = spans_of(x.as_slice());
    let k: usize = spans_of(y.as_slice()).len();
    proof {
        lemma_spans(s@);
        assert(span_ints(all@).len() == all@.len());
    }
    let n: usize = all.len();
    if k >= n {
        return Some(String::new());
    }
    assert(span_ints(all@)[k as int] == spans(s@)[k as int]);
    assert(span_ints(all@)[n - 1] == spans(s@)[n - 1]);
    Some(string_of(slice_of(x.as_slice(), all[k].0, all[n - 1].1).as_slice()))
}

/// `s` relative to `base`, or `s` itself where it does not lie below it.
pub fn relativize(s: &str, base: &str) -> (r: String)
    ensures
        r@ == relative_or_self(s@, base@),
{
    match strip_prefix(s, base) {
        Some(rel) => rel,
        None => s.to_owned(),
    }
}

/// The directory that holds `s`.
pub fn parent_of(s: &str) -> (r: Option<String>)
    ensures
        match r {
            Some(p) => parent(s@) == Some(p@),
            None => parent(s@) is None,
        },
{
    let x = chars_of(s);
    let all = spans_of(x.as_slice());
    proof {
        lemma_spans(s@);
        assert(span_ints(all@).len() == all@.len());
    }
    let n: usize = all.len();
    if n == 0 || (n == 1 && x[0] == '/') {
        return None;
    }
    if n == 1 {
        return Some(String::new());
    }
    assert(span_ints(all@)[n - 2] == spans(s@)[n - 2]);
    let head = slice_of(x.as_slice(), 0, all[n - 2].1);
    assert(head@ =~= s@.take(spans(s@)[n - 2].1));
    Some(string_of(head.as_slice()))
}

/// The directories above `s`, nearest first.
pub fn ancestors_of(s: &str) -> (v: Vec<String>)
    ensures
        crate::text::texts(v@) == ancestors(s@),
{
    let mut v: Vec<String> = Vec::new();
    let mut cur: String = s.to_owned();
    assert(crate::text::texts(v@) + ancestors(cur@) =~= ancestors(s@));
    loop
        invariant
            crate::text::texts(v@) + ancestors(cur@) == ancestors(s@),
        decreases cur@.len(),
    {
        let ghost before = crate::text::texts(v@);
        proof {
            parent_is_shorter(cur@);
        }
        match parent_of(cur.as_str()) {
            Some(p) => {
                v.push(p.clone());
                assert(crate::text::texts(v@) =~= before.push(p@));
                assert(before + (seq![p@] + ancestors(p@)) =~= before.push(p@) + ancestors(p@));
                cur = p;
            },
            None => {
                assert(before + ancestors(cur@) =~= before);
                return v;
            },
        }
    }
}

/// `p` taken from the directory `base`.
pub fn join(base: &str, p: &str) -> (r: String)
    ensures
        r@ == joined(base@, p@),
{
    if is_absolute(p) {
        return p.to_owned();
    }
    let b = chars_of(base);
    let mut r = base.to_owned();
    if b.len() > 0 && b[b.len() - 1] != '/' {
        r.push('/');
    }
    r.append(p);
    r
}

/// The path begins with a `.` of its own.
pub open spec fn begins_with_dot(p: Seq<char>) -> bool {
    p.len() > 0 && p[0] == '.' && segment_end(p, 0) == 1
}

/// A relative path without separators at its ends and without a `.` at its start.
pub open spec fn plain_relative(p: Seq<char>) -> bool {
    !absolute(p) && !begins_with_dot(p) && spans(p).len() > 0 && spans(p)[0].0 == 0 && spans(
        p,
    ).last().1 == p.len()
}

/// The spans moved by `n`.
pub open spec fn shifted(q: Seq<(int, int)>, n: int) -> Seq<(int, int)> {
    q.map_values(|x: (int, int)| (x.0 + n, x.1 + n))
}

/// Where the first separator from `i` on is, given that it is at `e`.
pub proof fn lemma_segment_end(s: Seq<char>, i: int, e: int)
    requires
        0 <= i <= e <= s.len(),
        forall|k: int| i <= k < e ==> #[trigger] s[k] != '/',
        e < s.len() ==> s[e] == '/',
    ensures
        segment_end(s, i) == e,
{
    let t = s.skip(i);
    assert forall|k: int| 0 <= k < e - i implies (other_than('/'))(#[trigger] t[k]) by {
        assert(t[k] == s[i + k]);
    }
    lemma_leading(t, other_than('/'), e - i);
}

/// The stretch that begins at `i` holds no separator, and one follows unless the text ends.
pub proof fn lemma_segment_bounds(s: Seq<char>, i: int)
    requires
        0 <= i <= s.len(),
    ensures
        i <= segment_end(s, i) <= s.len(),
        forall|k: int| i <= k < segment_end(s, i) ==> #[trigger] s[k] != '/',
        segment_end(s, i) < s.len() ==> s[segment_end(s, i)] == '/',
{
    let t = s.skip(i);
    lemma_leading_bounds(t, other_than('/'));
    assert forall|k: int| i <= k < segment_end(s, i) implies #[trigger] s[k] != '/' by {
        assert(t[k - i] == s[k]);
        assert((other_than('/'))(t[k - i]));
    }
}

/// The spans of a text that goes on behind a separator are those of its parts.
pub proof fn lemma_spans_concat(b: Seq<char>, p: Seq<char>, i: int)
    requires
        0 <= i <= b.len(),
        b.len() > 0,
        b.last() == '/',
    ensures
        spans_from(b + p, i) == spans_from(b, i) + spans_from(b + p, b.len() as int),
    decreases b.len() - i,
{
    let s = b + p;
    if i == b.len() {
        assert(spans_from(b, i) + spans_from(s, i) =~= spans_from(s, i));
    } else {
        lemma_segment_bounds(b, i);
        let e = segment_end(b, i);
        assert(e < b.len()) by {
            if e == b.len() {
                assert(b[b.len() - 1] != '/');
            }
        }
        assert forall|k: int| i <= k < e implies #[trigger] s[k] != '/' by {
            assert(s[k] == b[k]);
        }
        lemma_segment_end(s, i, e);
        lemma_spans_concat(b, p, e + 1);
        assert(spans_from(s, i) =~= spans_from(b, i) + spans_from(s, b.len() as int));
    }
}

/// The spans of the second part are its own, moved.
proof fn lemma_spans_shifted(b: Seq<char>, p: Seq<char>, j: int)
    requires
        0 <= j <= p.len(),
        b.len() > 0,
        j == 0 ==> !begins_with_dot(p),
    ensures
        spans_from(b + p, b.len() + j) == shifted(spans_from(p, j), b.len() as int),
    decreases p.len() - j,
{
    let s = b + p;
    let n = b.len() as int;
    if j < p.len() {
        assert(s.skip(n + j) =~= p.skip(j));
        lemma_segment_bounds(p, j);
        let e = segment_end(p, j);
        assert(segment_end(s, n + j) == n + e);
        assert(s[n + j] == p[j]);
        if e < p.len() {
            lemma_spans_shifted(b, p, e + 1);
        }
    }
    assert(spans_from(s, n + j) =~= shifted(spans_from(p, j), n));
}

/// A separator at the end adds no component.
pub proof fn lemma_spans_trailing(b: Seq<char>, i: int)
    requires
        0 <= i <= b.len(),
    ensures
        spans_from(b.push('/'), i) == spans_from(b, i),
    decreases b.len() - i,
{
    let s = b.push('/');
    assert(spans_from(s, s.len() as int) =~= Seq::<(int, int)>::empty());
    if i == b.len() {
        lemma_segment_end(s, i, i);
        assert(spans_from(s, i) =~= spans_from(b, i));
    } else {
        lemma_segment_bounds(b, i);
        let e = segment_end(b, i);
        assert forall|k: int| i <= k < e implies #[trigger] s[k] != '/' by {
            assert(s[k] == b[k]);
        }
        lemma_segment_end(s, i, e);
        if e < b.len() {
            lemma_spans_trailing(b, e + 1);
        }
        assert(spans_from(s, i) =~= spans_from(b, i));
    }
}

/// What stands before `p` when it is taken from `base`.
spec fn prefix_of(base: Seq<char>) -> Seq<char> {
    if base.len() > 0 && base.last() != '/' {
        base.push('/')
    } else {
        base
    }
}

proof fn lemma_joined_spans(base: Seq<char>, p: Seq<char>)
    requires
        base.len() > 0,
        !absolute(p),
        !begins_with_dot(p),
    ensures
        joined(base, p) == prefix_of(base) + p,
        spans(joined(base, p)) == spans(base) + shifted(spans(p), prefix_of(base).len() as int),
{
    let b = prefix_of(base);
    let s = b + p;
    let start: int = if absolute(base) {
        1
    } else {
        0
    };
    assert(joined(base, p) == s);
    assert(s[0] == base[0]);
    if base.last() != '/' {
        lemma_spans_trailing(base, start);
    }
    lemma_spans_concat(b, p, start);
    lemma_spans_shifted(b, p, 0);
    assert(spans(s) =~= spans(base) + shifted(spans(p), b.len() as int));
}

/// The components of a path taken from a directory are those of the directory and then its
/// own.
pub proof fn joined_components(base: Seq<char>, p: Seq<char>)
    requires
        base.len() > 0,
        !absolute(p),
        !begins_with_dot(p),
    ensures
        components(joined(base, p)) == components(base) + components(p),
        below(joined(base, p), base),
{
    lemma_joined_spans(base, p);
    lemma_spans(base);
    lemma_spans(p);
    let s = joined(base, p);
    let n = prefix_of(base).len() as int;
    let m = spans(base).len() as int;
    let all = components(base) + components(p);
    assert forall|k: int| 0 <= k < all.len() implies #[trigger] components(s)[k] == all[k] by {
        if k < m {
            let x = spans(base)[k];
            assert(s.subrange(x.0, x.1) =~= base.subrange(x.0, x.1));
        } else {
            let x = spans(p)[k - m];
            assert(spans(s)[k] == (x.0 + n, x.1 + n));
            assert(s.subrange(x.0 + n, x.1 + n) =~= p.subrange(x.0, x.1));
        }
    }
    assert(components(s) =~= all);
    assert(components(s).subrange(0, components(base).len() as int) =~= components(base));
}

/// Relative to a directory, a plain path taken from it is that path again.
pub proof fn join_then_strip(base: Seq<char>, p: Seq<char>)
    requires
        base.len() > 0,
        plain_relative(p),
    ensures
        relative_to(joined(base, p), base) == Some(p),
{
    joined_components(base, p);
    lemma_joined_spans(base, p);
    let s = joined(base, p);
    let n = prefix_of(base).len() as int;
    let m = spans(base).len() as int;
    assert(components(base).len() == m);
    assert(spans(s)[m] == (spans(p)[0].0 + n, spans(p)[0].1 + n));
    assert(spans(s).last() == (spans(p).last().0 + n, spans(p).last().1 + n));
    assert(s.subrange(n, n + p.len()) =~= p);
}

} // verus!
