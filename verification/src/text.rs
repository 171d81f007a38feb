//! Searching, cutting and joining text, as sequences of characters.
use vstd::prelude::*;

use crate::chars::{space_char, word_char};

verus! {

/// The characters of `s`, in order.
pub fn chars_of(s: &str) -> (v: Vec<char>)
    ensures
        v@ == s@,
{
    let mut v: Vec<char> = Vec::new();
    for c in it: s.chars()
        invariant
            it.seq() == s@,
            v@ == s@.take(it.index() as int),
    {
        v.push(c);
        assert(s@.take(it.index() as int + 1) =~= s@.take(it.index() as int).push(c));
    }
    assert(s@.take(s@.len() as int) =~= s@);
    v
}

/// The string made of the characters of `v`.
pub fn string_of(v: &[char]) -> (s: String)
    ensures
        s@ == v@,
{
    let mut s = String::new();
    for i in 0..v.len()
        invariant
            s@ == v@.take(i as int),
    {
        s.push(v[i]);
        assert(v@.take(i + 1) =~= v@.take(i as int).push(v@[i as int]));
    }
    assert(v@.take(v@.len() as int) =~= v@);
    s
}

/// `p` stands in `s` at position `i`.
pub open spec fn occurs_at(s: Seq<char>, p: Seq<char>, i: int) -> bool {
    0 <= i && i + p.len() <= s.len() && s.subrange(i, i + p.len() as int) == p
}

/// `p` stands somewhere in `s`.
pub open spec fn contains_text(s: Seq<char>, p: Seq<char>) -> bool {
    exists|i: int| occurs_at(s, p, i)
}

/// `s` begins with `p`.
pub open spec fn starts_with(s: Seq<char>, p: Seq<char>) -> bool {
    occurs_at(s, p, 0)
}

/// How many of the first characters of `s` satisfy `f`, up to the first that does not.
pub open spec fn leading(s: Seq<char>, f: spec_fn(char) -> bool) -> nat
    decreases s.len(),
{
    if s.len() > 0 && f(s[0]) {
        1 + leading(s.skip(1), f)
    } else {
        0
    }
}

/// How many of the last characters of `s` satisfy `f`, back to the last that does not.
pub open spec fn trailing(s: Seq<char>, f: spec_fn(char) -> bool) -> nat
    decreases s.len(),
{
    if s.len() > 0 && f(s.last()) {
        1 + trailing(s.drop_last(), f)
    } else {
        0
    }
}

/// Being another character than `c`.
pub open spec fn other_than(c: char) -> spec_fn(char) -> bool {
    |x: char| x != c
}

/// Being white space.
pub open spec fn spaces() -> spec_fn(char) -> bool {
    |c: char| space_char(c)
}

/// Being an identifier character.
pub open spec fn word_chars() -> spec_fn(char) -> bool {
    |c: char| word_char(c)
}

/// The position of the first `c` in `s`, or the length of `s` where there is none.
pub open spec fn index_of(s: Seq<char>, c: char) -> int {
    leading(s, other_than(c)) as int
}

/// The position after the last `c` in `s`, or 0 where there is none.
pub open spec fn after_last(s: Seq<char>, c: char) -> int {
    s.len() - trailing(s, other_than(c))
}

/// `s` without its leading white space.
pub open spec fn trim_start(s: Seq<char>) -> Seq<char> {
    s.skip(leading(s, spaces()) as int)
}

/// `s` without its trailing white space.
pub open spec fn trim_end(s: Seq<char>) -> Seq<char> {
    s.take(s.len() - trailing(s, spaces()))
}

/// `s` without the white space on either side.
pub open spec fn trim(s: Seq<char>) -> Seq<char> {
    trim_end(trim_start(s))
}

/// The pieces of `s` between the separators `sep`; always at least one.
pub open spec fn split_on(s: Seq<char>, sep: char) -> Seq<Seq<char>>
    decreases s.len(),
{
    if s.len() == 0 {
        seq![Seq::<char>::empty()]
    } else {
        let before = split_on(s.drop_last(), sep);
        if s.last() == sep {
            before.push(Seq::<char>::empty())
        } else {
            before.drop_last().push(before.last().push(s.last()))
        }
    }
}

/// The texts one after another, with `sep` between each two.
pub open spec fn join(parts: Seq<Seq<char>>, sep: Seq<char>) -> Seq<char>
    decreases parts.len(),
{
    if parts.len() == 0 {
        Seq::<char>::empty()
    } else if parts.len() == 1 {
        parts[0]
    } else {
        join(parts.drop_last(), sep) + sep + parts.last()
    }
}

/// The line without a carriage return at its end.
pub open spec fn strip_cr(line: Seq<char>) -> Seq<char> {
    if line.len() > 0 && line.last() == '\r' {
        line.drop_last()
    } else {
        line
    }
}

/// The lines of `s`, ended by `\n` or `\r\n`; the last line need not be ended.
pub open spec fn lines(s: Seq<char>) -> Seq<Seq<char>> {
    let parts = split_on(s, '\n');
    let ended = Seq::new((parts.len() - 1) as nat, |i: int| strip_cr(parts[i]));
    if parts.last().len() == 0 {
        ended
    } else {
        ended.push(parts.last())
    }
}

/// `s` with every occurrence of `from`, taken from the left without overlap, replaced by `to`.
pub open spec fn replace_all(s: Seq<char>, from: Seq<char>, to: Seq<char>) -> Seq<char>
    recommends
        from.len() > 0,
    decreases s.len(),
{
    if s.len() == 0 {
        s
    } else if from.len() > 0 && starts_with(s, from) {
        to + replace_all(s.skip(from.len() as int), from, to)
    } else {
        seq![s[0]] + replace_all(s.skip(1), from, to)
    }
}

pub open spec fn is_digit(c: char) -> bool {
    '0' <= c && c <= '9'
}

/// The number that the decimal digits `d` write.
pub open spec fn decimal_value(d: Seq<char>) -> nat
    decreases d.len(),
{
    if d.len() == 0 {
        0
    } else {
        10 * decimal_value(d.drop_last()) + (d.last() as u32 - '0' as u32) as nat
    }
}

pub open spec fn all_digits(d: Seq<char>) -> bool {
    forall|i: int| 0 <= i < d.len() ==> is_digit(#[trigger] d[i])
}

/// `s` without a `+` at its start.
pub open spec fn without_plus(s: Seq<char>) -> Seq<char> {
    if s.len() > 0 && s[0] == '+' {
        s.skip(1)
    } else {
        s
    }
}

/// The number that `s` writes: decimal digits, after a `+` or nothing, of a value that fits.
pub open spec fn number_of(s: Seq<char>) -> Option<u32> {
    let d = without_plus(s);
    if d.len() > 0 && all_digits(d) && decimal_value(d) <= u32::MAX {
        Some(decimal_value(d) as u32)
    } else {
        None
    }
}

/// The texts that the strings hold.
pub open spec fn texts(v: Seq<String>) -> Seq<Seq<char>> {
    v.map_values(|s: String| s@)
}

/// The texts, and behind them the new ones that are not yet there, in order.
pub open spec fn extended(files: Seq<Seq<char>>, new: Seq<Seq<char>>) -> Seq<Seq<char>>
    decreases new.len(),
{
    if new.len() == 0 {
        files
    } else {
        let before = extended(files, new.drop_last());
        if before.contains(new.last()) {
            before
        } else {
            before.push(new.last())
        }
    }
}

/// Extending keeps the texts and their order, adds exactly the new ones, and adds none twice.
pub proof fn extending_is_a_union(files: Seq<Seq<char>>, new: Seq<Seq<char>>)
    ensures
        files.is_prefix_of(extended(files, new)),
        forall|f: Seq<char>| #[trigger]
            extended(files, new).contains(f) == (files.contains(f) || new.contains(f)),
        files.no_duplicates() ==> extended(files, new).no_duplicates(),
    decreases new.len(),
{
    if new.len() > 0 {
        extending_is_a_union(files, new.drop_last());
        let before = extended(files, new.drop_last());
        assert(new =~= new.drop_last().push(new.last()));
        assert forall|f: Seq<char>| #[trigger]
            extended(files, new).contains(f) == (files.contains(f) || new.contains(f)) by {
            assert(before.contains(f) == (files.contains(f) || new.drop_last().contains(f)));
            if new.contains(f) && f != new.last() {
                let k = choose|k: int| 0 <= k < new.len() && new[k] == f;
                assert(new.drop_last()[k] == f);
            }
            if new.drop_last().contains(f) {
                let k = choose|k: int| 0 <= k < new.drop_last().len() && new.drop_last()[k] == f;
                assert(new[k] == f);
            }
            if !before.contains(new.last()) {
                let all = before.push(new.last());
                if before.contains(f) {
                    let k = choose|k: int| 0 <= k < before.len() && before[k] == f;
                    assert(all[k] == f);
                }
                if f == new.last() {
                    assert(all[before.len() as int] == f);
                }
            } else {
                assert(new.last() == new[new.len() - 1]);
            }
        }
    }
}

/// `leading` is the first position where `f` fails.
pub proof fn lemma_leading(s: Seq<char>, f: spec_fn(char) -> bool, n: int)
    requires
        0 <= n <= s.len(),
        forall|i: int| 0 <= i < n ==> f(#[trigger] s[i]),
        n < s.len() ==> !f(s[n]),
    ensures
        leading(s, f) == n,
    decreases s.len(),
{
    if n > 0 {
        let t = s.skip(1);
        assert forall|i: int| 0 <= i < n - 1 implies f(#[trigger] t[i]) by {
            assert(t[i] == s[i + 1]);
        }
        lemma_leading(t, f, n - 1);
    }
}

/// `leading` stays within the text, and `f` holds before it and not at it.
pub proof fn lemma_leading_bounds(s: Seq<char>, f: spec_fn(char) -> bool)
    ensures
        leading(s, f) <= s.len(),
        forall|i: int| 0 <= i < leading(s, f) ==> f(#[trigger] s[i]),
        leading(s, f) < s.len() ==> !f(s[leading(s, f) as int]),
    decreases s.len(),
{
    if s.len() > 0 && f(s[0]) {
        let t = s.skip(1);
        lemma_leading_bounds(t, f);
        assert forall|i: int| 0 <= i < leading(s, f) implies f(#[trigger] s[i]) by {
            if i > 0 {
                assert(t[i - 1] == s[i]);
            }
        }
    }
}

/// `trailing` counts back to the last position where `f` fails.
pub proof fn lemma_trailing(s: Seq<char>, f: spec_fn(char) -> bool, n: int)
    requires
        0 <= n <= s.len(),
        forall|i: int| s.len() - n <= i < s.len() ==> f(#[trigger] s[i]),
        n < s.len() ==> !f(s[s.len() - n - 1]),
    ensures
        trailing(s, f) == n,
    decreases s.len(),
{
    if n > 0 {
        lemma_trailing(s.drop_last(), f, n - 1);
    }
}

pub proof fn lemma_split_nonempty(s: Seq<char>, sep: char)
    ensures
        split_on(s, sep).len() >= 1,
    decreases s.len(),
{
    if s.len() > 0 {
        lemma_split_nonempty(s.drop_last(), sep);
    }
}

/// Splitting loses nothing: the pieces joined by the separator are the text again.
pub proof fn split_then_join(s: Seq<char>, sep: char)
    ensures
        join(split_on(s, sep), seq![sep]) == s,
    decreases s.len(),
{
    if s.len() > 0 {
        let before = split_on(s.drop_last(), sep);
        split_then_join(s.drop_last(), sep);
        lemma_split_nonempty(s.drop_last(), sep);
        if s.last() == sep {
            let all = before.push(Seq::<char>::empty());
            assert(all.drop_last() =~= before);
            assert(join(all, seq![sep]) =~= s);
        } else {
            let all = before.drop_last().push(before.last().push(s.last()));
            assert(all.drop_last() =~= before.drop_last());
            assert(join(all, seq![sep]) =~= join(before, seq![sep]).push(s.last()));
            assert(s =~= s.drop_last().push(s.last()));
        }
    }
}

/// No piece holds the separator.
pub proof fn split_pieces_hold_no_separator(s: Seq<char>, sep: char)
    ensures
        forall|k: int| 0 <= k < split_on(s, sep).len() ==> !(#[trigger] split_on(s, sep)[k]).contains(sep),
    decreases s.len(),
{
    if s.len() > 0 {
        let before = split_on(s.drop_last(), sep);
        split_pieces_hold_no_separator(s.drop_last(), sep);
        lemma_split_nonempty(s.drop_last(), sep);
        if s.last() != sep {
            let last = before.last().push(s.last());
            assert(!before[before.len() - 1].contains(sep));
            assert(!last.contains(sep)) by {
                if last.contains(sep) {
                    let i = last.index_of(sep);
                    assert(before.last().contains(before.last()[i]));
                }
            }
        }
    }
}

/// Whether the two texts are equal.
pub fn eq_chars(a: &[char], b: &[char]) -> (r: bool)
    ensures
        r == (a@ == b@),
{
    if a.len() != b.len() {
        return false;
    }
    for i in 0..a.len()
        invariant
            a@.len() == b@.len(),
            forall|j: int| 0 <= j < i ==> a@[j] == b@[j],
    {
        if a[i] != b[i] {
            return false;
        }
    }
    assert(a@ =~= b@);
    true
}

/// Whether the two strings hold the same text.
pub fn eq_str(a: &str, b: &str) -> (r: bool)
    ensures
        r == (a@ == b@),
{
    eq_chars(chars_of(a).as_slice(), chars_of(b).as_slice())
}

/// Whether `p` stands in `s` at `i`.
pub fn at(s: &[char], p: &[char], i: usize) -> (r: bool)
    ensures
        r == occurs_at(s@, p@, i as int),
{
    if i > s.len() || p.len() > s.len() - i {
        return false;
    }
    for j in 0..p.len()
        invariant
            i + p.len() <= s.len(),
            forall|k: int| 0 <= k < j ==> s@[i + k] == p@[k],
    {
        if s[i + j] != p[j] {
            assert(s@.subrange(i as int, i + p@.len() as int)[j as int] != p@[j as int]);
            return false;
        }
    }
    assert(s@.subrange(i as int, i + p@.len() as int) =~= p@);
    true
}

/// The first position of `p` in `s` that is not before `from`.
pub fn find_from(s: &[char], p: &[char], from: usize) -> (r: Option<usize>)
    ensures
        match r {
            Some(i) => from <= i && occurs_at(s@, p@, i as int) && forall|j: int|
                from <= j < i ==> !occurs_at(s@, p@, j),
            None => forall|j: int| from <= j ==> !occurs_at(s@, p@, j),
        },
{
    if from > s.len() || p.len() > s.len() - from {
        return None;
    }
    let last: usize = s.len() - p.len();
    let mut i: usize = from;
    while i <= last
        invariant
            from <= i,
            last + p@.len() == s@.len(),
            forall|j: int| from <= j < i ==> !occurs_at(s@, p@, j),
        decreases last + 1 - i,
    {
        if at(s, p, i) {
            return Some(i);
        }
        if i == last {
            return None;
        }
        i += 1;
    }
    None
}

/// Whether `p` stands somewhere in `s`.
pub fn contains(s: &[char], p: &str) -> (r: bool)
    ensures
        r == contains_text(s@, p@),
{
    find_from(s, chars_of(p).as_slice(), 0).is_some()
}

/// Whether `s` begins with `p`.
pub fn begins_with(s: &[char], p: &str) -> (r: bool)
    ensures
        r == starts_with(s@, p@),
{
    at(s, chars_of(p).as_slice(), 0)
}

/// The characters of `s` from `from` up to `to`.
pub fn slice_of(s: &[char], from: usize, to: usize) -> (v: Vec<char>)
    requires
        from <= to <= s@.len(),
    ensures
        v@ == s@.subrange(from as int, to as int),
{
    let mut v: Vec<char> = Vec::new();
    for i in from..to
        invariant
            from <= i <= to <= s@.len(),
            v@ == s@.subrange(from as int, i as int),
    {
        v.push(s[i]);
        assert(s@.subrange(from as int, i + 1) =~= s@.subrange(from as int, i as int).push(
            s@[i as int],
        ));
    }
    v
}

/// The position of the first `c` in `s`, or the length of `s`.
pub fn find_char(s: &[char], c: char) -> (n: usize)
    ensures
        n == index_of(s@, c),
        n <= s@.len(),
        forall|i: int| 0 <= i < n ==> s@[i] != c,
        n < s@.len() ==> s@[n as int] == c,
{
    let ghost f = other_than(c);
    let mut n: usize = 0;
    while n < s.len() && s[n] != c
        invariant
            n <= s@.len(),
            forall|i: int| 0 <= i < n ==> s@[i] != c,
        decreases s@.len() - n,
    {
        n += 1;
    }
    proof {
        lemma_leading(s@, f, n as int);
    }
    n
}

/// The position after the last `c` in `s`, or 0.
pub fn find_last(s: &[char], c: char) -> (n: usize)
    ensures
        n == after_last(s@, c),
        n <= s@.len(),
        forall|i: int| n <= i < s@.len() ==> s@[i] != c,
        n > 0 ==> s@[n - 1] == c,
{
    let ghost f = other_than(c);
    let mut n: usize = s.len();
    while n > 0 && s[n - 1] != c
        invariant
            n <= s@.len(),
            forall|i: int| n <= i < s@.len() ==> s@[i] != c,
        decreases n,
    {
        n -= 1;
    }
    proof {
        lemma_trailing(s@, f, s@.len() - n);
    }
    n
}

/// How many of the first characters of `s` are white space.
pub fn leading_space(s: &[char]) -> (n: usize)
    ensures
        n == leading(s@, spaces()),
        n <= s@.len(),
{
    let ghost f = spaces();
    let mut n: usize = 0;
    while n < s.len() && s[n].is_whitespace()
        invariant
            n <= s@.len(),
            forall|i: int| 0 <= i < n ==> space_char(s@[i]),
        decreases s@.len() - n,
    {
        n += 1;
    }
    proof {
        lemma_leading(s@, f, n as int);
    }
    n
}

/// How many of the first characters of `s` are identifier characters.
pub fn leading_word(s: &[char]) -> (n: usize)
    ensures
        n == leading(s@, word_chars()),
        n <= s@.len(),
{
    let ghost f = word_chars();
    let mut n: usize = 0;
    while n < s.len() && crate::chars::is_id_char(s[n])
        invariant
            n <= s@.len(),
            forall|i: int| 0 <= i < n ==> word_char(s@[i]),
        decreases s@.len() - n,
    {
        n += 1;
    }
    proof {
        lemma_leading(s@, f, n as int);
    }
    n
}

/// `s` without its leading white space.
pub fn trimmed_start(s: &[char]) -> (v: Vec<char>)
    ensures
        v@ == trim_start(s@),
{
    let n: usize = leading_space(s);
    slice_of(s, n, s.len())
}

/// `s` without the white space on either side.
pub fn trimmed(s: &[char]) -> (v: Vec<char>)
    ensures
        v@ == trim(s@),
{
    let t = trimmed_start(s);
    let ghost f = spaces();
    let mut n: usize = t.len();
    while n > 0 && t[n - 1].is_whitespace()
        invariant
            n <= t@.len(),
            forall|i: int| n <= i < t@.len() ==> space_char(t@[i]),
        decreases n,
    {
        n -= 1;
    }
    proof {
        lemma_trailing(t@, f, t@.len() - n);
    }
    slice_of(t.as_slice(), 0, n)
}

/// The pieces of `s` between the separators `sep`.
pub fn split(s: &[char], sep: char) -> (v: Vec<Vec<char>>)
    ensures
        v@.len() == split_on(s@, sep).len(),
        v@.len() >= 1,
        forall|i: int| 0 <= i < v@.len() ==> (#[trigger] v@[i])@ == split_on(s@, sep)[i],
{
    let mut done: Vec<Vec<char>> = Vec::new();
    let mut last: Vec<char> = Vec::new();
    assert(s@.take(0) =~= Seq::<char>::empty());
    for i in 0..s.len()
        invariant
            split_on(s@.take(i as int), sep).len() == done@.len() + 1,
            forall|k: int| 0 <= k < done@.len() ==> (#[trigger] done@[k])@ == split_on(
                s@.take(i as int),
                sep,
            )[k],
            split_on(s@.take(i as int), sep).last() == last@,
    {
        let ghost prefix = s@.take(i as int);
        assert(s@.take(i + 1).drop_last() =~= prefix);
        let c = s[i];
        if c == sep {
            done.push(last);
            last = Vec::new();
        } else {
            last.push(c);
        }
    }
    assert(s@.take(s@.len() as int) =~= s@);
    done.push(last);
    done
}

/// The lines of `s`.
pub fn lines_of(s: &[char]) -> (v: Vec<Vec<char>>)
    ensures
        v@.len() == lines(s@).len(),
        forall|i: int| 0 <= i < v@.len() ==> (#[trigger] v@[i])@ == lines(s@)[i],
{
    let mut parts = split(s, '\n');
    let ghost all = parts@;
    let last = parts.pop().unwrap();
    let mut out: Vec<Vec<char>> = Vec::new();
    for i in 0..parts.len()
        invariant
            parts@ == all.drop_last(),
            all.len() == split_on(s@, '\n').len(),
            all.len() >= 1,
            forall|k: int| 0 <= k < all.len() ==> (#[trigger] all[k])@ == split_on(s@, '\n')[k],
            out@.len() == i,
            forall|k: int| 0 <= k < i ==> (#[trigger] out@[k])@ == strip_cr(split_on(s@, '\n')[k]),
    {
        let part = &parts[i];
        assert(part@ == all[i as int]@);
        let n: usize = part.len();
        if n > 0 && part[n - 1] == '\r' {
            let line = slice_of(part.as_slice(), 0, n - 1);
            assert(line@ =~= part@.drop_last());
            out.push(line);
        } else {
            let line = slice_of(part.as_slice(), 0, n);
            assert(line@ =~= part@);
            out.push(line);
        }
    }
    assert(last@ == split_on(s@, '\n').last());
    if last.len() > 0 {
        out.push(last);
    }
    out
}

/// The number that `s` writes, where it writes one.
pub fn parse_u32(s: &[char]) -> (r: Option<u32>)
    ensures
        r == number_of(s@),
{
    let start: usize = if s.len() > 0 && s[0] == '+' {
        1
    } else {
        0
    };
    let ghost d = without_plus(s@);
    assert(d =~= s@.skip(start as int));
    if s.len() == start {
        return None;
    }
    let mut value: u64 = 0;
    let mut i: usize = start;
    while i < s.len()
        invariant
            start <= i <= s@.len(),
            start <= 1,
            d == s@.skip(start as int),
            d == without_plus(s@),
            forall|k: int| 0 <= k < i - start ==> is_digit(#[trigger] d[k]),
            value == decimal_value(d.take(i - start)),
            value <= u32::MAX,
        decreases s@.len() - i,
    {
        let c = s[i];
        assert(c == d[i - start]);
        if !('0' <= c && c <= '9') {
            assert(!is_digit(d[i - start]));
            return None;
        }
        let digit: u32 = c as u32 - '0' as u32;
        value = 10 * value + digit as u64;
        assert(d.take(i + 1 - start).drop_last() =~= d.take(i - start));
        if value > u32::MAX as u64 {
            proof {
                lemma_decimal_grows(d, i + 1 - start);
            }
            return None;
        }
        i += 1;
    }
    assert(d.take(d.len() as int) =~= d);
    Some(value as u32)
}

/// A longer row of digits writes no smaller number.
proof fn lemma_decimal_grows(d: Seq<char>, n: int)
    requires
        0 <= n <= d.len(),
    ensures
        decimal_value(d.take(n)) <= decimal_value(d),
    decreases d.len(),
{
    if n == d.len() {
        assert(d.take(n) =~= d);
    } else {
        lemma_decimal_grows(d.drop_last(), n);
        assert(d.drop_last().take(n) =~= d.take(n));
    }
}

/// `s` with every `from` replaced by `to`.
pub fn replaced(s: &[char], from: &[char], to: &[char]) -> (v: Vec<char>)
    requires
        from@.len() > 0,
    ensures
        v@ == replace_all(s@, from@, to@),
{
    let mut out: Vec<char> = Vec::new();
    let mut i: usize = 0;
    assert(s@.skip(0) =~= s@);
    while i < s.len()
        invariant
            i <= s@.len(),
            from@.len() > 0,
            replace_all(s@, from@, to@) == out@ + replace_all(s@.skip(i as int), from@, to@),
        decreases s@.len() - i,
    {
        let ghost rest = s@.skip(i as int);
        let ghost before = out@;
        if at(s, from, i) {
            assert(rest.subrange(0, from@.len() as int) =~= s@.subrange(
                i as int,
                i + from@.len() as int,
            ));
            assert(rest.skip(from@.len() as int) =~= s@.skip(i + from@.len()));
            for j in 0..to.len()
                invariant
                    out@ == before + to@.take(j as int),
            {
                out.push(to[j]);
                assert(before + to@.take(j + 1) =~= (before + to@.take(j as int)).push(
                    to@[j as int],
                ));
            }
            assert(to@.take(to@.len() as int) =~= to@);
            i += from.len();
            assert(before + replace_all(rest, from@, to@) =~= out@ + replace_all(
                s@.skip(i as int),
                from@,
                to@,
            ));
        } else {
            assert(!starts_with(rest, from@)) by {
                if starts_with(rest, from@) {
                    assert(rest.subrange(0, from@.len() as int) =~= s@.subrange(
                        i as int,
                        i + from@.len() as int,
                    ));
                }
            }
            assert(rest.skip(1) =~= s@.skip(i + 1));
            out.push(s[i]);
            i += 1;
            assert(before + replace_all(rest, from@, to@) =~= out@ + replace_all(
                s@.skip(i as int),
                from@,
                to@,
            ));
        }
    }
    assert(s@.skip(s@.len() as int) =~= Seq::<char>::empty());
    assert(out@ + replace_all(s@.skip(i as int), from@, to@) =~= out@);
    out
}

/// Whether one of the strings holds the text `s`.
pub fn holds(v: &[String], s: &str) -> (r: bool)
    ensures
        r == texts(v@).contains(s@),
{
    for i in 0..v.len()
        invariant
            forall|j: int| 0 <= j < i ==> texts(v@)[j] != s@,
    {
        if eq_str(v[i].as_str(), s) {
            assert(texts(v@)[i as int] == s@);
            return true;
        }
    }
    false
}

/// A copy of the strings.
pub fn clone_strings(v: &[String]) -> (r: Vec<String>)
    ensures
        r@ == v@,
{
    let mut r: Vec<String> = Vec::new();
    for i in 0..v.len()
        invariant
            r@ == v@.take(i as int),
    {
        r.push(v[i].clone());
        assert(v@.take(i + 1) =~= v@.take(i as int).push(v@[i as int]));
    }
    assert(v@.take(v@.len() as int) =~= v@);
    r
}

/// Adds the strings whose text is not yet there.
pub fn extend_texts(v: &mut Vec<String>, more: &[String])
    ensures
        texts(final(v)@) == extended(texts(old(v)@), texts(more@)),
{
    let ghost before = texts(v@);
    let ghost new = texts(more@);
    assert(new.take(0) =~= Seq::<Seq<char>>::empty());
    for i in 0..more.len()
        invariant
            new == texts(more@),
            texts(v@) == extended(before, new.take(i as int)),
    {
        assert(new.take(i + 1).drop_last() =~= new.take(i as int));
        let ghost sofar = texts(v@);
        if !holds(v.as_slice(), more[i].as_str()) {
            v.push(more[i].clone());
            assert(texts(v@) =~= sofar.push(new[i as int]));
        }
    }
    assert(new.take(new.len() as int) =~= new);
}

} // verus!
