//! What holds of reading declarations, names and receiver types off text.
use vstd::prelude::*;

use crate::chars::{space_char, word_char};
use crate::resolver::infer::{base_of, dotted_len, leaf};
use crate::resolver::receiver::outermost;
use crate::rg::find_laws::holds;
use crate::str_ext::{
    annotation_chars, annotation_len, closing, declaration_prefix, declaration_start, dotted_chars,
};
use crate::text::{
    index_of, join, leading, lemma_leading, lemma_leading_bounds, other_than, word_chars,
};
use crate::text_laws::{blank, characters_are_found, held_texts, lemma_trimmed_start};
use crate::util::in_test_source_set;

verus! {

/// A file is one of tests where its path goes through a test source set.
pub proof fn test_files_lie_in_test_source_sets(path: Seq<char>)
    ensures
        in_test_source_set(path) <==> holds(path, "/src/test/"@) || holds(
            path,
            "/src/androidTest/"@,
        ) || holds(path, "/src/commonTest/"@) || holds(path, "/src/iosTest/"@),
{
    held_texts(path, "/src/test/"@);
    held_texts(path, "/src/androidTest/"@);
    held_texts(path, "/src/commonTest/"@);
    held_texts(path, "/src/iosTest/"@);
}

/// The characters of names, dotted names and annotations.
pub proof fn characters_of_names(c: char)
    ensures
        (word_chars())(c) <==> word_char(c),
        (dotted_chars())(c) <==> word_char(c) || c == '.',
        (annotation_chars())(c) <==> word_char(c) || c == '.' || c == ':',
{
}

/// What a text begins with of a kind of characters ends at the first other character.
pub proof fn prefixes_end_at_the_first_other_character(
    s: Seq<char>,
    f: spec_fn(char) -> bool,
)
    ensures
        leading(s, f) <= s.len(),
        forall|i: int| 0 <= i < leading(s, f) ==> f(#[trigger] s[i]),
        leading(s, f) < s.len() ==> !f(s[leading(s, f) as int]),
{
    lemma_leading_bounds(s, f);
}

/// A declaration begins behind white space; one that begins with no annotation begins there.
pub proof fn declarations_begin_behind_white_space(gap: Seq<char>, d: Seq<char>)
    requires
        blank(gap),
        d.len() > 0 ==> !space_char(d[0]) && d[0] != '@',
    ensures
        declaration_start(gap + d) == d,
{
    lemma_trimmed_start(gap, d);
}

proof fn lemma_closing_plain(s: Seq<char>, i: int, e: int)
    requires
        0 <= i <= e < s.len(),
        s[e] == ')',
        forall|k: int| i <= k < e ==> #[trigger] s[k] != '(' && s[k] != ')',
    ensures
        closing(s, i, 1) == e + 1,
    decreases e - i,
{
    if i < e {
        assert(s[i] != '(' && s[i] != ')');
        lemma_closing_plain(s, i + 1, e);
    }
}

/// An annotation before a declaration does not count, with or without arguments.
pub proof fn annotations_do_not_count(
    gap: Seq<char>,
    name: Seq<char>,
    arguments: Seq<char>,
    rest: Seq<char>,
)
    requires
        blank(gap),
        forall|i: int|
            0 <= i < name.len() ==> word_char(#[trigger] name[i]) || name[i] == '.' || name[i]
                == ':',
        forall|i: int|
            0 <= i < arguments.len() ==> #[trigger] arguments[i] != '(' && arguments[i] != ')',
    ensures
        !(rest.len() > 0 && (word_char(rest[0]) || rest[0] == '.' || rest[0] == ':' || rest[0]
            == '(')) ==> declaration_start(gap + (seq!['@'] + name + rest)) == declaration_start(
            rest,
        ),
        declaration_start(gap + (seq!['@'] + name + seq!['('] + arguments + seq![')'] + rest))
            == declaration_start(rest),
{
    let f = annotation_chars();
    let n = name.len() as int;
    if !(rest.len() > 0 && (word_char(rest[0]) || rest[0] == '.' || rest[0] == ':' || rest[0]
        == '(')) {
        let t = seq!['@'] + name + rest;
        lemma_trimmed_start(gap, t);
        let u = t.skip(1);
        assert(u =~= name + rest);
        assert forall|i: int| 0 <= i < n implies f(#[trigger] u[i]) by {
            assert(u[i] == name[i]);
        }
        if rest.len() > 0 {
            assert(u[n] == rest[0]);
            assert(t[n + 1] == rest[0]);
        }
        lemma_leading(u, f, n);
        assert(annotation_len(t) == n + 1);
        assert(t.skip(n + 1) =~= rest);
    }
    let tail = seq!['('] + arguments + seq![')'] + rest;
    let t = seq!['@'] + name + seq!['('] + arguments + seq![')'] + rest;
    assert(t =~= seq!['@'] + name + tail);
    lemma_trimmed_start(gap, t);
    let u = t.skip(1);
    assert(u =~= name + tail);
    assert forall|i: int| 0 <= i < n implies f(#[trigger] u[i]) by {
        assert(u[i] == name[i]);
    }
    assert(u[n] == '(');
    lemma_leading(u, f, n);
    assert(t[n + 1] == '(');
    let e = n + 2 + arguments.len();
    assert(t[e] == ')');
    assert forall|k: int| n + 2 <= k < e implies #[trigger] t[k] != '(' && t[k] != ')' by {
        assert(t[k] == arguments[k - n - 2]);
    }
    lemma_closing_plain(t, n + 2, e);
    assert(annotation_len(t) == e + 1);
    assert(t.skip(e + 1) =~= rest);
}

/// A declaration is read up to the `=` of its value, and whole where it has none before its
/// body.
pub proof fn declarations_end_before_their_value(a: Seq<char>, b: Seq<char>, s: Seq<char>)
    ensures
        declaration_start(s) == a + seq!['='] + b && !a.contains('=') && !a.contains('{')
            ==> declaration_prefix(s) == a,
        declaration_start(s) == a + seq!['{'] + b && !a.contains('=') && !a.contains('{')
            ==> declaration_prefix(s) == declaration_start(s),
        declaration_start(s) == a && !a.contains('=') ==> declaration_prefix(s) == a,
{
    let d = declaration_start(s);
    characters_are_found(d, '{');
    let left = d.take(index_of(d, '{'));
    characters_are_found(left, '=');
    if d == a + seq!['='] + b && !a.contains('=') && !a.contains('{') {
        let n = a.len() as int;
        assert(d[n] == '=');
        assert(index_of(d, '{') > n) by {
            if index_of(d, '{') <= n {
                let k = index_of(d, '{');
                assert(d[k] == '{');
                assert(a[k] == '{');
            }
        }
        assert(index_of(left, '=') == n) by {
            let k = index_of(left, '=');
            assert(left[n] == '=');
            if k < n {
                assert(left[k] == '=');
                assert(a[k] == '=');
            }
        }
        assert(left.take(n) =~= a);
    }
    if d == a + seq!['{'] + b && !a.contains('=') && !a.contains('{') {
        let n = a.len() as int;
        assert(d[n] == '{');
        let k = index_of(d, '{');
        if k < n {
            assert(a[k] == '{');
        }
        assert(left =~= a);
        if index_of(left, '=') < left.len() {
            assert(a[index_of(left, '=')] == '=');
        }
    }
    if d == a && !a.contains('=') {
        if index_of(left, '=') < left.len() {
            assert(a[index_of(left, '=')] == '=');
        }
    }
}

/// The parts of a receiver's type: of `outer.leaf`, with whatever follows the name, the name
/// itself, its first and its last segment.
pub proof fn receiver_types_have_these_parts(outer: Seq<char>, inner: Seq<char>, rest: Seq<char>)
    requires
        forall|i: int| 0 <= i < outer.len() ==> word_char(#[trigger] outer[i]) && outer[i] != '.',
        forall|i: int| 0 <= i < inner.len() ==> word_char(#[trigger] inner[i]) && inner[i] != '.',
        rest.len() > 0 ==> !word_char(rest[0]) && rest[0] != '.',
    ensures
        base_of(outer + seq!['.'] + inner + rest) == outer + seq!['.'] + inner,
        outermost(outer + seq!['.'] + inner) == outer,
        leaf(outer + seq!['.'] + inner) == inner,
        outermost(outer) == outer,
        leaf(outer) == outer,
{
    let name = outer + seq!['.'] + inner;
    let s = name + rest;
    let n = name.len() as int;
    assert forall|i: int| 0 <= i < n implies (dotted_chars())(#[trigger] s[i]) by {
        if i < outer.len() {
            assert(s[i] == outer[i]);
        } else if i > outer.len() {
            assert(s[i] == inner[i - outer.len() - 1]);
        }
    }
    if rest.len() > 0 {
        assert(s[n] == rest[0]);
    }
    lemma_leading(s, dotted_chars(), n);
    assert(dotted_len(s) == n);
    assert(base_of(s) =~= name);
    let f = other_than('.');
    assert forall|i: int| 0 <= i < outer.len() implies f(#[trigger] name[i]) by {
        assert(name[i] == outer[i]);
    }
    assert(name[outer.len() as int] == '.');
    lemma_leading(name, f, outer.len() as int);
    assert(outermost(name) =~= outer);
    assert forall|i: int| n - inner.len() <= i < n implies f(#[trigger] name[i]) by {
        assert(name[i] == inner[i - outer.len() - 1]);
    }
    crate::text::lemma_trailing(name, f, inner.len() as int);
    assert(leaf(name) =~= inner);
    assert forall|i: int| 0 <= i < outer.len() implies f(#[trigger] outer[i]) by {}
    lemma_leading(outer, f, outer.len() as int);
    crate::text::lemma_trailing(outer, f, outer.len() as int);
    assert(outermost(outer) =~= outer);
    assert(leaf(outer) =~= outer);
}

/// Texts are joined one after another, with the separator between each two.
pub proof fn texts_are_joined_in_order(parts: Seq<Seq<char>>, part: Seq<char>, sep: Seq<char>)
    ensures
        join(Seq::empty(), sep).len() == 0,
        join(seq![part], sep) == part,
        parts.len() > 0 ==> join(parts.push(part), sep) == join(parts, sep) + sep + part,
{
    assert(parts.push(part).drop_last() =~= parts);
}

} // verus!
