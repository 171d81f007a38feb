//! Which of the lines that ripgrep finds are references to a name.
use vstd::prelude::*;

use crate::chars::{is_id_char, word_char};
use crate::str_ext::dotted_chars;
use crate::text::{
    at, begins_with, chars_of, contains, contains_text, eq_chars, find_from, leading, lemma_leading,
    lemma_trailing, occurs_at, slice_of, starts_with, trailing, trim_start, trimmed_start,
};

verus! {

/// The words that begin a declaration.
pub const REFERENCE_DECLARATION_KEYWORDS: [&'static str; 14] = [
    "class ",
    "interface ",
    "object ",
    "fun ",
    "val ",
    "var ",
    "typealias ",
    "enum class ",
    "enum ",
    "struct ",
    "protocol ",
    "func ",
    "let ",
    "extension ",
];

/// Being a dot.
pub open spec fn dots() -> spec_fn(char) -> bool {
    |c: char| c == '.'
}

/// The line holds a word that begins a declaration.
pub open spec fn holds_keyword(content: Seq<char>) -> bool {
    exists|k: int|
        0 <= k < 14 && contains_text(content, #[trigger] REFERENCE_DECLARATION_KEYWORDS@[k]@)
}

/// No identifier goes on at position `e`.
pub open spec fn word_ends(s: Seq<char>, e: int) -> bool {
    !(0 <= e < s.len() && word_char(s[e]))
}

/// The keyword `kw` and then exactly the name stand in `content` at `i`.
pub open spec fn declares_at(content: Seq<char>, kw: Seq<char>, name: Seq<char>, i: int) -> bool {
    occurs_at(content, kw + name, i) && word_ends(content, i + kw.len() + name.len())
}

/// The line holds a declaration keyword followed by exactly the name.
pub open spec fn declares(content: Seq<char>, name: Seq<char>) -> bool {
    exists|k: int, i: int|
        0 <= k < 14 && #[trigger] declares_at(
            content,
            REFERENCE_DECLARATION_KEYWORDS@[k]@,
            name,
            i,
        )
}

/// The line is an import or a package declaration.
pub open spec fn imports_or_package(content: Seq<char>) -> bool {
    starts_with(trim_start(content), "import "@) || starts_with(trim_start(content), "package "@)
}

/// The name behind a dot.
pub open spec fn dotted(name: Seq<char>) -> Seq<char> {
    seq!['.'] + name
}

/// The identifiers and dots that end right before position `i`.
pub open spec fn chain_before(s: Seq<char>, i: int) -> Seq<char> {
    let t = s.take(i);
    t.skip(t.len() - trailing(t, dotted_chars()))
}

/// The qualifier that ends right before the dot at position `i`, without leading dots.
pub open spec fn qualifier_at(s: Seq<char>, i: int) -> Seq<char> {
    let chain = chain_before(s, i);
    chain.skip(leading(chain, dots()) as int)
}

/// The `.name` at position `i` is that whole name, behind another qualifier than `parent`.
pub open spec fn wrong_at(s: Seq<char>, name: Seq<char>, parent: Seq<char>, i: int) -> bool {
    word_ends(s, i + 1 + name.len()) && qualifier_at(s, i).len() > 0 && qualifier_at(s, i) != parent
}

/// The first position of `p` in `s` that is not before `from`.
pub open spec fn first_from(s: Seq<char>, p: Seq<char>, from: int) -> Option<int>
    decreases s.len() - from,
{
    if from + p.len() > s.len() {
        None
    } else if occurs_at(s, p, from) {
        Some(from)
    } else if p.len() == 0 {
        None
    } else {
        first_from(s, p, from + 1)
    }
}

/// One of the `.name`s, looked for from the left without overlap, has a wrong qualifier.
pub open spec fn wrong_from(s: Seq<char>, name: Seq<char>, parent: Seq<char>, from: int) -> bool
    decreases s.len() - from,
{
    match first_from(s, dotted(name), from) {
        Some(i) => from <= i && i + 1 + name.len() <= s.len() && (wrong_at(s, name, parent, i)
            || wrong_from(s, name, parent, i + 1 + name.len())),
        None => false,
    }
}

/// The line holds the name behind another qualifier than `parent`.
pub open spec fn wrongly_qualified(s: Seq<char>, name: Seq<char>, parent: Seq<char>) -> bool {
    wrong_from(s, name, parent, 0)
}

/// `first_from` is the first occurrence.
proof fn lemma_first_from(s: Seq<char>, p: Seq<char>, from: int, i: int)
    requires
        0 <= from <= i,
        occurs_at(s, p, i),
        forall|j: int| from <= j < i ==> !occurs_at(s, p, j),
    ensures
        first_from(s, p, from) == Some(i),
    decreases i - from,
{
    if from < i {
        if p.len() == 0 {
            assert(s.subrange(from, from) =~= p);
            assert(occurs_at(s, p, from));
        }
        lemma_first_from(s, p, from + 1, i);
    }
}

proof fn lemma_first_from_none(s: Seq<char>, p: Seq<char>, from: int)
    requires
        0 <= from,
        forall|j: int| from <= j ==> !occurs_at(s, p, j),
    ensures
        first_from(s, p, from) is None,
    decreases s.len() - from,
{
    if from + p.len() <= s.len() && p.len() > 0 {
        lemma_first_from_none(s, p, from + 1);
    }
}

/// What `first_from` finds is an occurrence, and the first.
proof fn lemma_first_from_found(s: Seq<char>, p: Seq<char>, from: int)
    requires
        0 <= from,
        p.len() > 0,
    ensures
        match first_from(s, p, from) {
            Some(i) => from <= i && occurs_at(s, p, i) && forall|j: int|
                from <= j < i ==> !occurs_at(s, p, j),
            None => forall|j: int| from <= j ==> !occurs_at(s, p, j),
        },
    decreases s.len() - from,
{
    if from + p.len() <= s.len() && !occurs_at(s, p, from) {
        lemma_first_from_found(s, p, from + 1);
        match first_from(s, p, from) {
            Some(i) => {
                assert forall|j: int| from <= j < i implies !occurs_at(s, p, j) by {
                    if j > from {
                    }
                }
            },
            None => {
                assert forall|j: int| from <= j implies !occurs_at(s, p, j) by {
                    if j > from {
                    }
                }
            },
        }
    }
}

proof fn lemma_wrong_from(s: Seq<char>, name: Seq<char>, parent: Seq<char>, from: int)
    requires
        0 <= from,
        !name.contains('.'),
    ensures
        wrong_from(s, name, parent, from) == exists|i: int|
            from <= i && #[trigger] occurs_at(s, dotted(name), i) && wrong_at(s, name, parent, i),
    decreases s.len() - from,
{
    let p = dotted(name);
    lemma_first_from_found(s, p, from);
    match first_from(s, p, from) {
        Some(i) => {
            let end = i + 1 + name.len();
            lemma_wrong_from(s, name, parent, end);
            assert forall|j: int| i < j && #[trigger] occurs_at(s, p, j) implies end <= j by {
                if j < end {
                    assert(s.subrange(j, j + p.len())[0] == s[j]);
                    assert(s.subrange(i, i + p.len())[j - i] == s[j]);
                    assert(p[j - i] == name[j - i - 1]);
                    assert(p[0] == '.');
                    assert(name.contains(name[j - i - 1]));
                }
            }
            if exists|j: int|
                from <= j && #[trigger] occurs_at(s, p, j) && wrong_at(s, name, parent, j) {
                let j = choose|j: int|
                    from <= j && #[trigger] occurs_at(s, p, j) && wrong_at(s, name, parent, j);
                assert(i <= j);
                if j != i {
                    assert(end <= j);
                }
            }
        },
        None => {},
    }
}

/// Of a name without dots, a line is wrongly qualified exactly where some `.name` in it, with
/// no identifier going on behind it, stands behind a qualifier other than the parent. A bare
/// name never is.
pub proof fn wrong_qualifier_is_any(s: Seq<char>, name: Seq<char>, parent: Seq<char>)
    requires
        !name.contains('.'),
    ensures
        wrongly_qualified(s, name, parent) == exists|i: int| #[trigger]
            occurs_at(s, dotted(name), i) && wrong_at(s, name, parent, i),
{
    lemma_wrong_from(s, name, parent, 0);
    if exists|i: int| #[trigger] occurs_at(s, dotted(name), i) && wrong_at(s, name, parent, i) {
        let i = choose|i: int| #[trigger]
            occurs_at(s, dotted(name), i) && wrong_at(s, name, parent, i);
        assert(0 <= i && occurs_at(s, dotted(name), i));
    }
}

/// Whether no identifier goes on at position `e`.
fn ends_word(s: &[char], e: usize) -> (r: bool)
    ensures
        r == word_ends(s@, e as int),
{
    !(e < s.len() && is_id_char(s[e]))
}

/// Whether `content` holds the name behind another qualifier than `expected_parent`.
///
/// A bare `name` is always allowed: a search for `ReducerA.Factory` must drop a line with
/// `ReducerC.Factory` even though it also holds the bare word `Factory`.
pub fn has_wrong_qualifier(content: &str, name: &str, expected_parent: &str) -> (r: bool)
    ensures
        r == wrongly_qualified(content@, name@, expected_parent@),
{
    let s = chars_of(content);
    let parent = chars_of(expected_parent);
    let mut dot_name = ".".to_owned();
    dot_name.append(name);
    let p = chars_of(dot_name.as_str());
    proof {
        reveal_strlit(".");
        assert(p@ =~= dotted(name@));
    }
    let mut offset: usize = 0;
    loop
        invariant
            s@ == content@,
            parent@ == expected_parent@,
            p@ == dotted(name@),
            offset <= s@.len(),
            wrongly_qualified(content@, name@, expected_parent@) == wrong_from(
                s@,
                name@,
                parent@,
                offset as int,
            ),
        decreases s@.len() - offset,
    {
        let start: usize = match find_from(s.as_slice(), p.as_slice(), offset) {
            Some(i) => i,
            None => {
                proof {
                    lemma_first_from_none(s@, p@, offset as int);
                }
                return false;
            },
        };
        proof {
            lemma_first_from(s@, p@, offset as int, start as int);
        }
        assert(start + p.len() <= s.len());
        let name_end: usize = start + p.len();
        if ends_word(s.as_slice(), name_end) {
            let mut from: usize = start;
            let ghost t = s@.take(start as int);
            while from > 0 && (is_id_char(s[from - 1]) || s[from - 1] == '.')
                invariant
                    from <= start <= s@.len(),
                    t == s@.take(start as int),
                    forall|i: int| from <= i < start ==> (dotted_chars())(#[trigger] t[i]),
                decreases from,
            {
                from -= 1;
            }
            proof {
                lemma_trailing(t, dotted_chars(), start - from);
            }
            let chain = slice_of(s.as_slice(), from, start);
            assert(chain@ =~= chain_before(s@, start as int));
            let mut skip: usize = 0;
            while skip < chain.len() && chain[skip] == '.'
                invariant
                    skip <= chain@.len(),
                    forall|i: int| 0 <= i < skip ==> (dots())(#[trigger] chain@[i]),
                decreases chain@.len() - skip,
            {
                skip += 1;
            }
            proof {
                lemma_leading(chain@, dots(), skip as int);
            }
            let qualifier = slice_of(chain.as_slice(), skip, chain.len());
            assert(qualifier@ =~= qualifier_at(s@, start as int));
            if qualifier.len() > 0 && !eq_chars(qualifier.as_slice(), parent.as_slice()) {
                return true;
            }
        }
        offset = name_end;
    }
}

/// Whether the keyword and then exactly the name stand somewhere in `s`.
fn declares_with(s: &[char], keyword: &str, name: &str) -> (r: bool)
    ensures
        r == exists|i: int| #[trigger] declares_at(s@, keyword@, name@, i),
{
    let mut text = keyword.to_owned();
    text.append(name);
    let p = chars_of(text.as_str());
    let mut i: usize = 0;
    while i <= s.len()
        invariant
            i <= s.len() + 1,
            p@ == keyword@ + name@,
            forall|j: int| 0 <= j < i ==> !#[trigger] declares_at(s@, keyword@, name@, j),
        decreases s.len() + 1 - i,
    {
        if at(s, p.as_slice(), i) && ends_word(s, i + p.len()) {
            assert(declares_at(s@, keyword@, name@, i as int));
            return true;
        }
        if i == s.len() {
            assert forall|j: int| !#[trigger] declares_at(s@, keyword@, name@, j) by {}
            return false;
        }
        i += 1;
    }
    false
}

/// Whether the line declares `name`: a declaration keyword stands right before it, and no
/// longer name begins there.
pub fn is_declaration_of(content: &str, name: &str) -> (r: bool)
    ensures
        r == declares(content@, name@),
{
    let s = chars_of(content);
    for k in 0..14
        invariant
            s@ == content@,
            forall|j: int, i: int|
                0 <= j < k ==> !#[trigger] declares_at(
                    content@,
                    REFERENCE_DECLARATION_KEYWORDS@[j]@,
                    name@,
                    i,
                ),
    {
        if declares_with(s.as_slice(), REFERENCE_DECLARATION_KEYWORDS[k], name) {
            let ghost i = choose|i: int| #[trigger]
                declares_at(s@, REFERENCE_DECLARATION_KEYWORDS@[k as int]@, name@, i);
            assert(declares_at(content@, REFERENCE_DECLARATION_KEYWORDS@[k as int]@, name@, i));
            return true;
        }
    }
    false
}

/// Whether the line holds a word that begins a declaration.
pub fn has_keyword(content: &str) -> (r: bool)
    ensures
        r == holds_keyword(content@),
{
    let s = chars_of(content);
    for k in 0..14
        invariant
            s@ == content@,
            forall|j: int|
                0 <= j < k ==> !contains_text(
                    content@,
                    #[trigger] REFERENCE_DECLARATION_KEYWORDS@[j]@,
                ),
    {
        if contains(s.as_slice(), REFERENCE_DECLARATION_KEYWORDS[k]) {
            assert(contains_text(content@, REFERENCE_DECLARATION_KEYWORDS@[k as int]@));
            return true;
        }
    }
    false
}

/// Whether the line is an import or a package declaration.
pub fn is_import_or_package(content: &str) -> (r: bool)
    ensures
        r == imports_or_package(content@),
{
    let t = trimmed_start(chars_of(content).as_slice());
    begins_with(t.as_slice(), "import ") || begins_with(t.as_slice(), "package ")
}

} // verus!
