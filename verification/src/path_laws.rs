//! What holds of taking paths apart and together.
use vstd::prelude::*;

use crate::path::{
    absolute, ancestors, begins_with_dot, below, components, joined, joined_components,
    lemma_segment_bounds, lemma_segment_end, lemma_spans, parent, relative_or_self, relative_to,
    same_path, segment_end, spans, spans_from,
};

verus! {

/// A path is taken from a directory by writing it behind the directory, with one slash between
/// them; an absolute path stays as it is.
pub proof fn paths_are_written_behind_the_directory(base: Seq<char>, p: Seq<char>)
    ensures
        p.len() > 0 && p[0] == '/' ==> joined(base, p) == p,
        !(p.len() > 0 && p[0] == '/') && base.len() > 0 && base.last() != '/' ==> joined(base, p)
            == base + seq!['/'] + p,
        !(p.len() > 0 && p[0] == '/') && (base.len() == 0 || base.last() == '/') ==> joined(base, p)
            == base + p,
        absolute(p) <==> p.len() > 0 && p[0] == '/',
{
    assert(base.push('/') + p =~= base + seq!['/'] + p);
}

proof fn lemma_one_span(name: Seq<char>, i: int)
    requires
        0 <= i <= name.len(),
        forall|k: int| i <= k < name.len() ==> #[trigger] name[k] != '/',
        i < name.len(),
        !(i > 0 && name.len() == i + 1 && name[i] == '.'),
    ensures
        spans_from(name, i) == seq![(i, name.len() as int)],
{
    lemma_segment_end(name, i, name.len() as int);
    assert(spans_from(name, i) =~= seq![(i, name.len() as int)]);
}

/// A name without a slash is one component, and the root is one.
pub proof fn names_are_components(name: Seq<char>)
    requires
        name.len() > 0,
        !name.contains('/'),
    ensures
        components(name) == seq![name],
        components(seq!['/']) == seq![seq!['/']],
        components(Seq::<char>::empty()).len() == 0,
{
    assert forall|k: int| 0 <= k < name.len() implies #[trigger] name[k] != '/' by {
        assert(name.contains(name[k]));
    }
    lemma_one_span(name, 0);
    assert(name.subrange(0, name.len() as int) =~= name);
    assert(components(name) =~= seq![name]);
    let root = seq!['/'];
    assert(spans_from(root, 1) =~= Seq::<(int, int)>::empty());
    assert(spans(root) =~= seq![(0int, 1int)]);
    assert(root.subrange(0, 1) =~= root);
    assert(components(root) =~= seq![root]);
}

/// A name in a directory is a component behind those of the directory.
pub proof fn names_in_a_directory(base: Seq<char>, name: Seq<char>)
    requires
        base.len() > 0,
        name.len() > 0,
        !name.contains('/'),
        name != seq!['.'],
    ensures
        components(joined(base, name)) == components(base).push(name),
        below(joined(base, name), base),
{
    names_are_components(name);
    assert(!absolute(name)) by {
        if absolute(name) {
            assert(name.contains(name[0]));
        }
    }
    assert(!begins_with_dot(name)) by {
        if begins_with_dot(name) {
            lemma_segment_bounds(name, 0);
            if name.len() > 1 {
                assert(name[1] == '/');
                assert(name.contains(name[1]));
            } else {
                assert(name =~= seq!['.']);
            }
        }
    }
    joined_components(base, name);
    assert(components(base) + seq![name] =~= components(base).push(name));
}

/// Two paths are the same where they have the same components, and one lies below another where
/// its components begin with the other's.
pub proof fn paths_are_compared_by_component(a: Seq<char>, b: Seq<char>)
    ensures
        same_path(a, b) <==> components(a) == components(b),
        below(a, b) <==> components(b).len() <= components(a).len() && forall|k: int|
            0 <= k < components(b).len() ==> #[trigger] components(a)[k] == components(b)[k],
{
    if components(b).len() <= components(a).len() {
        let head = components(a).subrange(0, components(b).len() as int);
        if below(a, b) {
            assert forall|k: int| 0 <= k < components(b).len() implies #[trigger] components(a)[k]
                == components(b)[k] by {
                assert(head[k] == components(a)[k]);
            }
        }
        if forall|k: int|
            0 <= k < components(b).len() ==> #[trigger] components(a)[k] == components(b)[k] {
            assert(head =~= components(b));
        }
    }
}

/// A path has something left relative to a directory exactly where it lies at or below it.
pub proof fn paths_are_relative_to_what_they_lie_below(s: Seq<char>, base: Seq<char>)
    ensures
        relative_to(s, base) is Some <==> below(s, base),
        below(s, base) ==> relative_or_self(s, base) == relative_to(s, base)->0,
        !below(s, base) ==> relative_or_self(s, base) == s,
        same_path(s, base) ==> relative_to(s, base) == Some(Seq::<char>::empty()),
{
    if same_path(s, base) {
        assert(components(s).subrange(0, components(base).len() as int) =~= components(base));
        assert(components(s).len() == spans(s).len());
    }
}

/// The directory of a path has all its components but the last; the root has none, and what
/// has one component alone lies in the empty path.
pub proof fn directories_hold_their_entries(base: Seq<char>, name: Seq<char>)
    requires
        base.len() > 0,
        base.last() != '/',
        spans(base).len() > 0,
        spans(base).last().1 == base.len(),
        name.len() > 0,
        !name.contains('/'),
        name != seq!['.'],
    ensures
        parent(joined(base, name)) == Some(base),
        parent(name) == Some(Seq::<char>::empty()),
        parent(seq!['/']) is None,
        parent(Seq::<char>::empty()) is None,
{
    names_are_components(name);
    names_in_a_directory(base, name);
    let s = joined(base, name);
    assert(s == base.push('/') + name) by {
        assert(!absolute(name)) by {
            if absolute(name) {
                assert(name.contains(name[0]));
            }
        }
    }
    assert(components(s).len() == spans(s).len());
    assert(components(base).len() == spans(base).len());
    lemma_entry_spans(base, name);
    let n = spans(base).len() as int;
    assert(spans(s).len() == n + 1);
    assert(spans(s)[n - 1] == spans(base)[n - 1]);
    assert(s.take(base.len() as int) =~= base);
    assert(components(name).len() == spans(name).len());
    assert(!absolute(name)) by {
        if absolute(name) {
            assert(name.contains(name[0]));
        }
    }
    assert(components(seq!['/']).len() == spans(seq!['/']).len());
    assert(spans(Seq::<char>::empty()).len() == 0);
}

/// The spans of a directory stay where they are when something is written behind it.
proof fn lemma_entry_spans(base: Seq<char>, name: Seq<char>)
    requires
        base.len() > 0,
    ensures
        spans(base).len() > 0 && spans(base).last().1 == base.len() ==> {
            let s = base.push('/') + name;
            let n = spans(base).len() as int;
            spans(s).len() >= n && spans(s)[n - 1] == spans(base)[n - 1]
        },
{
    let s = base.push('/') + name;
    if spans(base).len() > 0 && spans(base).last().1 == base.len() {
        assert(absolute(s) == absolute(base)) by {
            assert(s[0] == base[0]);
        }
        if absolute(base) {
            if base.len() > 1 {
                lemma_spans_kept(base, name, 1);
            } else {
                assert(spans_from(base, 1) =~= Seq::<(int, int)>::empty());
            }
        } else {
            lemma_spans_kept(base, name, 0);
        }
    }
}

proof fn lemma_spans_kept(base: Seq<char>, name: Seq<char>, i: int)
    requires
        0 <= i < base.len(),
    ensures
        ({
            let s = base.push('/') + name;
            let n = spans_from(base, i).len() as int;
            spans_from(s, i).len() >= n && spans_from(s, i).subrange(0, n) == spans_from(base, i)
        }),
    decreases base.len() - i,
{
    let s = base.push('/') + name;
    lemma_segment_bounds(base, i);
    let e = segment_end(base, i);
    assert forall|k: int| i <= k < e implies #[trigger] s[k] != '/' by {
        assert(s[k] == base[k]);
    }
    assert(s[e] == '/') by {
        if e < base.len() {
            assert(s[e] == base[e]);
        }
    }
    lemma_segment_end(s, i, e);
    assert(s[i] == base[i]);
    if e < base.len() && e + 1 < base.len() {
        lemma_spans_kept(base, name, e + 1);
    }
    let n = spans_from(base, i).len() as int;
    assert(spans_from(s, i).subrange(0, n) =~= spans_from(base, i)) by {
        if e < base.len() && e + 1 < base.len() {
            let m = spans_from(base, e + 1).len() as int;
            let inner = spans_from(s, e + 1);
            assert(inner.subrange(0, m) == spans_from(base, e + 1));
            assert forall|k: int| 0 <= k < m implies inner[k] == spans_from(base, e + 1)[k] by {
                assert(inner.subrange(0, m)[k] == inner[k]);
            }
        }
    }
}

/// The directories above a path are its own directory and then those above that.
pub proof fn ancestors_come_nearest_first(s: Seq<char>)
    ensures
        match parent(s) {
            Some(p) => ancestors(s) == seq![p] + ancestors(p),
            None => ancestors(s).len() == 0,
        },
{
    crate::path::parent_is_shorter(s);
}

/// A slash at the end of a path adds no component, and neither does a `.` behind one.
pub proof fn slashes_and_dots_at_the_end(base: Seq<char>)
    requires
        base.len() > 0,
    ensures
        components(base.push('/')) == components(base),
        same_path(base.push('/'), base),
        components(base.push('/').push('.')) == components(base),
{
    let s = base.push('/');
    let t = s.push('.');
    let start: int = if absolute(base) {
        1
    } else {
        0
    };
    assert(s[0] == base[0] && t[0] == base[0]);
    crate::path::lemma_spans_trailing(base, start);
    assert(spans(s) =~= spans(base));
    assert(t =~= s + seq!['.']);
    crate::path::lemma_spans_concat(s, seq!['.'], start);
    lemma_segment_end(t, s.len() as int, t.len() as int);
    assert(spans_from(t, s.len() as int) =~= Seq::<(int, int)>::empty());
    assert(spans(t) =~= spans(base));
    lemma_spans(base);
    assert forall|k: int| 0 <= k < components(base).len() implies #[trigger] components(s)[k]
        == components(base)[k] && components(t)[k] == components(base)[k] by {
        let p = spans(base)[k];
        assert(s.subrange(p.0, p.1) =~= base.subrange(p.0, p.1));
        assert(t.subrange(p.0, p.1) =~= base.subrange(p.0, p.1));
    }
    assert(components(s) =~= components(base));
    assert(components(t) =~= components(base));
}

} // verus!
