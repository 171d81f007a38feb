//! What holds of searching, cutting and reading text.
use vstd::prelude::*;

use crate::chars::{
    alnum_char, is_ascii_char, lower_char, space_char, upper_char, word_char,
};
use crate::text::{
    after_last, contains_text, decimal_value, extended, index_of, leading, lemma_leading, lemma_leading_bounds,
    lemma_split_nonempty, lines, number_of, occurs_at, other_than, replace_all, spaces, split_on,
    starts_with, texts, trailing, trim, trim_end, trim_start,
};

verus! {

/// The classes of the ASCII characters: letters, digits, white space, and the letters, digits
/// and `_` of identifiers.
pub proof fn ascii_classes(c: char)
    requires
        (c as u32) < 128,
    ensures
        alnum_char(c) <==> ('a' <= c && c <= 'z') || ('A' <= c && c <= 'Z') || ('0' <= c && c
            <= '9'),
        word_char(c) <==> ('a' <= c && c <= 'z') || ('A' <= c && c <= 'Z') || ('0' <= c && c
            <= '9') || c == '_',
        upper_char(c) <==> 'A' <= c && c <= 'Z',
        lower_char(c) <==> 'a' <= c && c <= 'z',
        space_char(c) <==> c == ' ' || c == '\t' || c == '\n' || c == '\r' || c as u32 == 11
            || c as u32 == 12,
        is_ascii_char(c),
{
}

/// A text holds another exactly where it is made of it and what stands before and behind it.
pub proof fn held_texts(s: Seq<char>, p: Seq<char>)
    ensures
        contains_text(s, p) <==> exists|a: Seq<char>, b: Seq<char>| s == #[trigger] (a + p + b),
        starts_with(s, p) <==> exists|b: Seq<char>| s == #[trigger] (p + b),
{
    if contains_text(s, p) {
        let i = choose|i: int| occurs_at(s, p, i);
        let a = s.take(i);
        let b = s.skip(i + p.len());
        assert forall|k: int| 0 <= k < p.len() implies s[i + k] == p[k] by {
            assert(s.subrange(i, i + p.len())[k] == p[k]);
        }
        assert(s =~= a + p + b);
    }
    if exists|a: Seq<char>, b: Seq<char>| s == #[trigger] (a + p + b) {
        let (a, b) = choose|a: Seq<char>, b: Seq<char>| s == #[trigger] (a + p + b);
        assert(s.subrange(a.len() as int, a.len() + p.len() as int) =~= p);
        assert(occurs_at(s, p, a.len() as int));
    }
    if starts_with(s, p) {
        let b = s.skip(p.len() as int);
        assert forall|k: int| 0 <= k < p.len() implies s[k] == p[k] by {
            assert(s.subrange(0, p.len() as int)[k] == p[k]);
        }
        assert(s =~= p + b);
    }
    if exists|b: Seq<char>| s == #[trigger] (p + b) {
        let b = choose|b: Seq<char>| s == #[trigger] (p + b);
        assert(s.subrange(0, p.len() as int) =~= p);
    }
}

/// All characters of the text are white space.
pub open spec fn blank(s: Seq<char>) -> bool {
    forall|i: int| 0 <= i < s.len() ==> space_char(#[trigger] s[i])
}

/// `trailing` stays within the text, and `f` holds behind it and not before it.
pub proof fn lemma_trailing_bounds(s: Seq<char>, f: spec_fn(char) -> bool)
    ensures
        trailing(s, f) <= s.len(),
        forall|i: int| s.len() - trailing(s, f) <= i < s.len() ==> f(#[trigger] s[i]),
        trailing(s, f) < s.len() ==> !f(s[s.len() - trailing(s, f) - 1]),
    decreases s.len(),
{
    if s.len() > 0 && f(s.last()) {
        let d = s.drop_last();
        lemma_trailing_bounds(d, f);
        assert forall|i: int| s.len() - trailing(s, f) <= i < s.len() implies f(
            #[trigger] s[i],
        ) by {
            if i < d.len() {
                assert(d[i] == s[i]);
            }
        }
    }
}

/// Trimming at the start takes away white space, and all of it that stands there.
pub proof fn trimming_the_start(s: Seq<char>)
    ensures
        exists|a: Seq<char>| #[trigger] blank(a) && s == a + trim_start(s),
        trim_start(s).len() > 0 ==> !space_char(trim_start(s)[0]),
{
    let f = spaces();
    lemma_leading_bounds(s, f);
    let n = leading(s, f) as int;
    let a = s.take(n);
    assert forall|i: int| 0 <= i < a.len() implies space_char(#[trigger] a[i]) by {
        assert(f(s[i]));
    }
    assert(blank(a));
    assert(s =~= a + trim_start(s));
    if n < s.len() {
        assert(trim_start(s)[0] == s[n]);
    }
}

/// Trimming at the end takes away white space, and all of it that stands there.
pub proof fn trimming_the_end(s: Seq<char>)
    ensures
        exists|b: Seq<char>| #[trigger] blank(b) && s == trim_end(s) + b,
        trim_end(s).len() > 0 ==> !space_char(trim_end(s).last()),
{
    let f = spaces();
    lemma_trailing_bounds(s, f);
    let m = s.len() - trailing(s, f);
    let b = s.skip(m);
    assert forall|i: int| 0 <= i < b.len() implies space_char(#[trigger] b[i]) by {
        assert(f(s[m + i]));
    }
    assert(blank(b));
    assert(s =~= trim_end(s) + b);
    if m > 0 {
        assert(trim_end(s).last() == s[m - 1]);
    }
}

/// Trimming takes away the white space on both sides, and nothing else.
pub proof fn trimming_both_sides(s: Seq<char>)
    ensures
        exists|a: Seq<char>, b: Seq<char>|
            #![trigger blank(a), blank(b)]
            blank(a) && blank(b) && s == a + trim(s) + b,
        trim(s).len() > 0 ==> !space_char(trim(s)[0]) && !space_char(trim(s).last()),
{
    let t = trim_start(s);
    trimming_the_start(s);
    trimming_the_end(t);
    let a = choose|a: Seq<char>| #[trigger] blank(a) && s == a + t;
    let b = choose|b: Seq<char>| #[trigger] blank(b) && t == trim_end(t) + b;
    assert(a + (trim_end(t) + b) =~= a + trim(s) + b);
    if trim(s).len() > 0 {
        assert(trim(s)[0] == t[0]);
    }
}

/// The first and the last place of a character in a text.
pub proof fn characters_are_found(s: Seq<char>, c: char)
    ensures
        0 <= index_of(s, c) <= s.len(),
        forall|i: int| 0 <= i < index_of(s, c) ==> #[trigger] s[i] != c,
        index_of(s, c) < s.len() ==> s[index_of(s, c)] == c,
        0 <= after_last(s, c) <= s.len(),
        forall|i: int| after_last(s, c) <= i < s.len() ==> #[trigger] s[i] != c,
        after_last(s, c) > 0 ==> s[after_last(s, c) - 1] == c,
{
    let f = other_than(c);
    lemma_leading_bounds(s, f);
    lemma_trailing_bounds(s, f);
    assert forall|i: int| 0 <= i < index_of(s, c) implies #[trigger] s[i] != c by {
        assert(f(s[i]));
    }
    assert forall|i: int| after_last(s, c) <= i < s.len() implies #[trigger] s[i] != c by {
        assert(f(s[i]));
    }
}

proof fn lemma_split_whole(s: Seq<char>, sep: char)
    requires
        !s.contains(sep),
    ensures
        split_on(s, sep) == seq![s],
    decreases s.len(),
{
    if s.len() > 0 {
        let d = s.drop_last();
        assert(!d.contains(sep)) by {
            if d.contains(sep) {
                let i = d.index_of(sep);
                assert(s[i] == sep);
            }
        }
        lemma_split_whole(d, sep);
        assert(s[s.len() - 1] == s.last());
        assert(s.last() != sep);
        assert(s =~= d.push(s.last()));
        assert(seq![d].drop_last() =~= Seq::<Seq<char>>::empty());
        assert(split_on(s, sep) =~= seq![s]);
    } else {
        assert(s =~= Seq::<char>::empty());
    }
}

/// The pieces of a text: the first up to the separator, then those of what stands behind it.
pub proof fn pieces_come_one_after_another(a: Seq<char>, sep: char, b: Seq<char>)
    requires
        !a.contains(sep),
    ensures
        split_on(a, sep) == seq![a],
        split_on(a.push(sep) + b, sep) == seq![a] + split_on(b, sep),
    decreases b.len(),
{
    lemma_split_whole(a, sep);
    let s = a.push(sep) + b;
    if b.len() == 0 {
        assert(s.drop_last() =~= a);
        assert(s.last() == sep);
        assert(split_on(s, sep) =~= seq![a] + split_on(b, sep));
    } else {
        let d = b.drop_last();
        pieces_come_one_after_another(a, sep, d);
        lemma_split_nonempty(d, sep);
        assert(s.drop_last() =~= a.push(sep) + d);
        assert(s.last() == b.last());
        let before = split_on(a.push(sep) + d, sep);
        let inner = split_on(d, sep);
        assert(before == seq![a] + inner);
        assert(before.last() == inner.last());
        assert(before.drop_last() =~= seq![a] + inner.drop_last());
        assert(split_on(s, sep) =~= seq![a] + split_on(b, sep));
    }
}

/// The lines of a text, from the first on: each ends at a line feed, with or without a carriage
/// return before it; the last need not end.
pub proof fn lines_come_one_after_another(line: Seq<char>, rest: Seq<char>)
    requires
        !line.contains('\n'),
    ensures
        lines(Seq::empty()).len() == 0,
        line.len() > 0 ==> lines(line) == seq![line],
        line.len() > 0 && line.last() == '\r' ==> lines(line.push('\n') + rest) == seq![
            line.drop_last(),
        ] + lines(rest),
        !(line.len() > 0 && line.last() == '\r') ==> lines(line.push('\n') + rest) == seq![line]
            + lines(rest),
{
    assert(split_on(Seq::<char>::empty(), '\n') =~= seq![Seq::<char>::empty()]);
    pieces_come_one_after_another(line, '\n', rest);
    lemma_split_nonempty(rest, '\n');
    let parts = split_on(line.push('\n') + rest, '\n');
    let inner = split_on(rest, '\n');
    assert(parts == seq![line] + inner);
    assert(parts.last() == inner.last());
    if line.len() > 0 {
        assert(lines(line) =~= seq![line]);
    }
    if line.len() > 0 && line.last() == '\r' {
        assert(lines(line.push('\n') + rest) =~= seq![line.drop_last()] + lines(rest));
    } else {
        assert(lines(line.push('\n') + rest) =~= seq![line] + lines(rest));
    }
}

/// Replacing goes from the left: what stands before the first occurrence stays, the occurrence
/// is replaced, and so on behind it. A text without an occurrence stays as it is.
pub proof fn replacing_goes_from_the_left(a: Seq<char>, from: Seq<char>, to: Seq<char>, b: Seq<char>)
    requires
        from.len() > 0,
        forall|i: int| 0 <= i < a.len() ==> !occurs_at(a + from + b, from, i),
    ensures
        replace_all(a + from + b, from, to) == a + to + replace_all(b, from, to),
    decreases a.len(),
{
    let s = a + from + b;
    if a.len() == 0 {
        assert(s.subrange(0, from.len() as int) =~= from);
        assert(s.skip(from.len() as int) =~= b);
        assert(replace_all(s, from, to) =~= a + to + replace_all(b, from, to));
    } else {
        let c = a.skip(1);
        assert(!occurs_at(s, from, 0));
        assert(s.skip(1) =~= c + from + b);
        assert forall|i: int| 0 <= i < c.len() implies !occurs_at(c + from + b, from, i) by {
            if occurs_at(c + from + b, from, i) {
                assert((c + from + b).subrange(i, i + from.len() as int) =~= s.subrange(
                    i + 1,
                    i + 1 + from.len() as int,
                ));
                assert(occurs_at(s, from, i + 1));
            }
        }
        replacing_goes_from_the_left(c, from, to, b);
        assert(replace_all(s, from, to) =~= a + to + replace_all(b, from, to));
    }
}

/// A text without an occurrence stays as it is.
pub proof fn nothing_is_replaced_without_an_occurrence(s: Seq<char>, from: Seq<char>, to: Seq<char>)
    requires
        from.len() > 0,
        forall|i: int| !occurs_at(s, from, i),
    ensures
        replace_all(s, from, to) == s,
    decreases s.len(),
{
    if s.len() > 0 {
        let t = s.skip(1);
        assert(!occurs_at(s, from, 0));
        assert forall|i: int| !occurs_at(t, from, i) by {
            if occurs_at(t, from, i) {
                assert(t.subrange(i, i + from.len() as int) =~= s.subrange(
                    i + 1,
                    i + 1 + from.len() as int,
                ));
                assert(occurs_at(s, from, i + 1));
            }
        }
        nothing_is_replaced_without_an_occurrence(t, from, to);
        assert(replace_all(s, from, to) =~= s);
    }
}

/// Numbers are written in decimal digits: a digit behind a number makes it ten times as large
/// and adds itself; a `+` may stand before the digits and nothing else may.
pub proof fn numbers_are_decimal(d: Seq<char>, c: char)
    requires
        forall|i: int| 0 <= i < d.len() ==> '0' <= #[trigger] d[i] && d[i] <= '9',
    ensures
        number_of(Seq::empty()) is None,
        '0' <= c && c <= '9' ==> number_of(seq![c]) == Some((c as u32 - '0' as u32) as u32),
        '0' <= c && c <= '9' && number_of(d) is Some ==> number_of(d.push(c)) == (if 10
            * number_of(d)->0 + (c as u32 - '0' as u32) <= u32::MAX {
            Some((10 * number_of(d)->0 + (c as u32 - '0' as u32)) as u32)
        } else {
            None::<u32>
        }),
        !('0' <= c && c <= '9') ==> number_of(d.push(c)) is None,
        number_of(seq!['+'] + d) == number_of(d),
{
    let e = seq![c];
    assert(crate::text::without_plus(Seq::<char>::empty()).len() == 0);
    if '0' <= c && c <= '9' {
        assert(crate::text::all_digits(e));
        assert(e.drop_last() =~= Seq::<char>::empty());
        assert(decimal_value(e.drop_last()) == 0);
        assert(decimal_value(e) == c as u32 - '0' as u32);
    }
    let f = d.push(c);
    assert(f.drop_last() =~= d);
    if d.len() > 0 {
        assert(f[0] == d[0] && d[0] != '+');
    }
    assert(crate::text::all_digits(d));
    if '0' <= c && c <= '9' {
        assert forall|i: int| 0 <= i < f.len() implies crate::text::is_digit(#[trigger] f[i]) by {
            if i < d.len() {
                assert(f[i] == d[i]);
            }
        }
        assert(decimal_value(f) == 10 * decimal_value(d) + (c as u32 - '0' as u32));
    } else {
        assert(f[d.len() as int] == c);
        if d.len() == 0 && c == '+' {
            assert(crate::text::without_plus(f).len() == 0);
        } else {
            assert(crate::text::without_plus(f) == f);
            assert(!crate::text::is_digit(f[d.len() as int]));
        }
    }
    let g = seq!['+'] + d;
    assert(g.skip(1) =~= d);
    assert(crate::text::without_plus(g) == d);
    if d.len() > 0 {
        assert(crate::text::without_plus(d) == d);
    }
}

/// The texts of strings are their characters, one text for each string.
pub proof fn texts_are_those_of_the_strings(v: Seq<String>)
    ensures
        texts(v).len() == v.len(),
        forall|i: int| 0 <= i < v.len() ==> #[trigger] texts(v)[i] == v[i]@,
{
}

/// Extending a list by one more text adds it at the end where it is not there yet, and else
/// changes nothing.
pub proof fn lists_are_extended_at_the_end(
    files: Seq<Seq<char>>,
    new: Seq<Seq<char>>,
    file: Seq<char>,
)
    ensures
        extended(files, Seq::empty()) == files,
        extended(files, new).contains(file) ==> extended(files, new.push(file)) == extended(
            files,
            new,
        ),
        !extended(files, new).contains(file) ==> extended(files, new.push(file)) == extended(
            files,
            new,
        ).push(file),
{
    assert(new.push(file).drop_last() =~= new);
}

/// White space before a text that begins with none is what trimming takes away.
pub proof fn lemma_trimmed_start(gap: Seq<char>, tail: Seq<char>)
    requires
        blank(gap),
        tail.len() > 0 ==> !space_char(tail[0]),
    ensures
        trim_start(gap + tail) == tail,
{
    let s = gap + tail;
    assert forall|i: int| 0 <= i < gap.len() implies (spaces())(#[trigger] s[i]) by {
        assert(s[i] == gap[i]);
    }
    if tail.len() > 0 {
        assert(s[gap.len() as int] == tail[0]);
    }
    lemma_leading(s, spaces(), gap.len() as int);
    assert(trim_start(s) =~= tail);
}

/// A trimmed text begins with a word exactly where the text begins with it behind white space.
pub proof fn words_begin_behind_white_space(line: Seq<char>, word: Seq<char>)
    requires
        word.len() > 0,
        !space_char(word[0]),
    ensures
        starts_with(trim_start(line), word) <==> exists|a: Seq<char>, b: Seq<char>|
            #![trigger a + word + b]
            blank(a) && line == a + word + b,
{
    trimming_the_start(line);
    let t = trim_start(line);
    let front = choose|a: Seq<char>| #[trigger] blank(a) && line == a + t;
    held_texts(t, word);
    if starts_with(t, word) {
        let b = choose|b: Seq<char>| t == #[trigger] (word + b);
        assert(front + (word + b) =~= front + word + b);
        assert(line == front + word + b);
    }
    if exists|a: Seq<char>, b: Seq<char>| #![trigger a + word + b] blank(a) && line == a + word + b {
        let (a, b) = choose|a: Seq<char>, b: Seq<char>|
            #![trigger a + word + b]
            blank(a) && line == a + word + b;
        assert(a + word + b =~= a + (word + b));
        lemma_trimmed_start(a, word + b);
    }
}

} // verus!
