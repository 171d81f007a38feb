//! Where a name is declared, read off source lines.
use vstd::prelude::*;

use super::infer::{is_name_at, name_at};
use crate::chars::{is_id_char, word_char};
use crate::semantic_tokens::source::utf16_len;
use crate::text::{
    at, begins_with, chars_of, lemma_trailing, occurs_at, slice_of, spaces, starts_with, texts,
    trim_end, trim_start, trimmed_start,
};
use crate::types::{Position, Range};

verus! {

/// The words that introduce a declared name.
pub const DECLARING_WORDS: [&'static str; 7] = [
    "val",
    "var",
    "fun",
    "class",
    "interface",
    "object",
    "typealias",
];

/// The text ends with the whole word.
pub open spec fn ends_with_word(s: Seq<char>, word: Seq<char>) -> bool {
    occurs_at(s, word, s.len() - word.len()) && (s.len() > word.len() ==> !word_char(
        s[s.len() - word.len() - 1],
    ))
}

/// The text ends with a declaring word and white space.
pub open spec fn introduces(before: Seq<char>) -> bool {
    trim_end(before).len() < before.len() && exists|k: int|
        0 <= k < 7 && ends_with_word(trim_end(before), #[trigger] DECLARING_WORDS@[k]@)
}

/// The text ends with what opens the parameters of a lambda or stands between them.
pub open spec fn in_lambda_head(before: Seq<char>) -> bool {
    let b = trim_end(before);
    b.len() > 0 && (b.last() == '{' || b.last() == ',')
}

/// A type annotation follows.
pub open spec fn annotates(rest: Seq<char>) -> bool {
    let t = trim_start(rest);
    t.len() > 0 && t[0] == ':' && !(t.len() > 1 && t[1] == ':')
}

/// The name standing at `i` is declared there: behind a declaring word, with a type annotation,
/// or as an untyped lambda parameter.
pub open spec fn declared_at(line: Seq<char>, name: Seq<char>, i: int) -> bool {
    name_at(line, name, i) && (introduces(line.take(i)) || annotates(line.skip(i + name.len()))
        || (in_lambda_head(line.take(i)) && starts_with(
        trim_start(line.skip(i + name.len())),
        "->"@,
    )))
}

/// The first position from `i` on where the line declares the name.
pub open spec fn declared_in(line: Seq<char>, name: Seq<char>, i: int) -> Option<int>
    decreases line.len() - i,
{
    if i < 0 || i >= line.len() {
        None
    } else if declared_at(line, name, i) {
        Some(i)
    } else {
        declared_in(line, name, i + 1)
    }
}

/// The range of the name at position `i` of line `k`.
pub open spec fn name_range(line: Seq<char>, name: Seq<char>, k: int, i: int) -> Range {
    Range {
        start: Position { line: k as u32, character: utf16_len(line.take(i)) as u32 },
        end: Position {
            line: k as u32,
            character: utf16_len(line.take(i + name.len())) as u32,
        },
    }
}

/// Where the lines first declare the name, from line `k` on.
pub open spec fn declaration(lines: Seq<Seq<char>>, name: Seq<char>, k: int) -> Option<Range>
    decreases lines.len() - k,
{
    if k < 0 || k >= lines.len() {
        None
    } else {
        match declared_in(lines[k], name, 0) {
            Some(i) => Some(name_range(lines[k], name, k, i)),
            None => declaration(lines, name, k + 1),
        }
    }
}

/// A line that never declares the name is passed over.
pub proof fn usages_are_passed_over(lines: Seq<Seq<char>>, name: Seq<char>, k: int)
    requires
        0 <= k < lines.len(),
        forall|i: int| !#[trigger] declared_at(lines[k], name, i),
    ensures
        declaration(lines, name, k) == declaration(lines, name, k + 1),
{
    lemma_not_declared(lines[k], name, 0);
}

proof fn lemma_not_declared(line: Seq<char>, name: Seq<char>, i: int)
    requires
        forall|j: int| !#[trigger] declared_at(line, name, j),
    ensures
        declared_in(line, name, i) is None,
    decreases line.len() - i,
{
    if 0 <= i < line.len() {
        lemma_not_declared(line, name, i + 1);
    }
}

proof fn lemma_utf16_push(s: Seq<char>, c: char)
    ensures
        utf16_len(s.push(c)) == utf16_len(s) + (if c as u32 >= 0x10000 {
            2nat
        } else {
            1nat
        }),
    decreases s.len(),
{
    if s.len() == 0 {
        assert(s.push(c).drop_first() =~= s);
        assert(utf16_len(s) == 0);
    } else {
        lemma_utf16_push(s.drop_first(), c);
        assert(s.push(c).drop_first() =~= s.drop_first().push(c));
    }
}

/// The UTF-16 column of position `i`.
fn utf16_column(line: &[char], i: usize) -> (r: u32)
    requires
        i <= line@.len(),
    ensures
        r == utf16_len(line@.take(i as int)) as u32,
{
    let mut count: u128 = 0;
    assert(line@.take(0) =~= Seq::<char>::empty());
    for k in 0..i
        invariant
            i <= line@.len(),
            count == utf16_len(line@.take(k as int)),
            count <= 2 * k,
    {
        proof {
            lemma_utf16_push(line@.take(k as int), line@[k as int]);
            assert(line@.take(k + 1) =~= line@.take(k as int).push(line@[k as int]));
        }
        if line[k] as u32 >= 0x10000 {
            count = count + 2;
        } else {
            count = count + 1;
        }
    }
    count as u32
}

/// How long the text before `i` is without the white space at its end.
fn trimmed_len(line: &[char], i: usize) -> (n: usize)
    requires
        i <= line@.len(),
    ensures
        n <= i,
        line@.take(n as int) == trim_end(line@.take(i as int)),
{
    let ghost before = line@.take(i as int);
    let mut n: usize = i;
    while n > 0 && line[n - 1].is_whitespace()
        invariant
            n <= i <= line@.len(),
            before == line@.take(i as int),
            forall|j: int| n <= j < i ==> (spaces())(#[trigger] before[j]),
        decreases n,
    {
        n -= 1;
    }
    proof {
        lemma_trailing(before, spaces(), i - n);
        assert(line@.take(n as int) =~= trim_end(before));
    }
    n
}

/// Whether the text ends with the whole word.
fn ends_word(s: &[char], word: &str) -> (r: bool)
    ensures
        r == ends_with_word(s@, word@),
{
    let w = chars_of(word);
    if s.len() < w.len() {
        return false;
    }
    let n: usize = s.len() - w.len();
    at(s, w.as_slice(), n) && (n == 0 || !is_id_char(s[n - 1]))
}

/// Whether the name standing at `i` is declared there.
fn is_declared_at(line: &[char], name: &[char], i: usize) -> (r: bool)
    requires
        i <= line@.len(),
    ensures
        r == declared_at(line@, name@, i as int),
{
    if !is_name_at(line, name, i) {
        return false;
    }
    let n: usize = trimmed_len(line, i);
    let ghost before = line@.take(i as int);
    let head = slice_of(line, 0, n);
    assert(head@ =~= trim_end(before));
    if n < i {
        for k in 0..7
            invariant
                n < i <= line@.len(),
                before == line@.take(i as int),
                head@ == trim_end(before),
                head@.len() == n,
                name_at(line@, name@, i as int),
                forall|j: int|
                    0 <= j < k ==> !ends_with_word(head@, #[trigger] DECLARING_WORDS@[j]@),
        {
            if ends_word(head.as_slice(), DECLARING_WORDS[k]) {
                assert(ends_with_word(head@, DECLARING_WORDS@[k as int]@));
                return true;
            }
        }
    }
    assert(!introduces(before));
    assert(i + name.len() <= line.len());
    let rest = slice_of(line, i + name.len(), line.len());
    assert(rest@ =~= line@.skip(i + name@.len()));
    let t = trimmed_start(rest.as_slice());
    if t.len() > 0 && t[0] == ':' && !(t.len() > 1 && t[1] == ':') {
        return true;
    }
    n > 0 && (head[n - 1] == '{' || head[n - 1] == ',') && begins_with(t.as_slice(), "->")
}

/// The range of the name where the lines first declare it.
///
/// A name counts as declared behind a declaring word (`val`, `fun`, ...), with a type annotation,
/// and as a lambda parameter before an arrow; a plain use does not count.
pub fn find_declaration_range_in_lines(lines: &[String], name: &str) -> (r: Option<Range>)
    ensures
        r == declaration(texts(lines@), name@, 0),
{
    let n = chars_of(name);
    let ghost all = texts(lines@);
    let mut k: usize = 0;
    while k < lines.len()
        invariant
            k <= lines@.len(),
            n@ == name@,
            all == texts(lines@),
            declaration(all, name@, 0) == declaration(all, name@, k as int),
        decreases lines@.len() - k,
    {
        let line = chars_of(lines[k].as_str());
        assert(line@ == all[k as int]);
        let mut i: usize = 0;
        while i < line.len()
            invariant
                k < lines@.len(),
                i <= line@.len(),
                n@ == name@,
                all == texts(lines@),
                line@ == all[k as int],
                declaration(all, name@, 0) == declaration(all, name@, k as int),
                declared_in(line@, name@, 0) == declared_in(line@, name@, i as int),
            decreases line@.len() - i,
        {
            if is_declared_at(line.as_slice(), n.as_slice(), i) {
                assert(i + n.len() <= line.len());
                let start = Position {
                    line: k as u32,
                    character: utf16_column(line.as_slice(), i),
                };
                let end = Position {
                    line: k as u32,
                    character: utf16_column(line.as_slice(), i + n.len()),
                };
                return Some(Range { start, end });
            }
            i += 1;
        }
        k += 1;
    }
    None
}

} // verus!
