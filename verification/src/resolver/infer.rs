//! Types and declarations read off source lines.
use vstd::prelude::*;

use crate::chars::{is_id_char, upper_char, word_char};
use crate::rg::hits::word_ends;
use crate::str_ext::dotted_chars;
use crate::text::{
    after_last, at, begins_with, chars_of, eq_str, find_last, leading, lemma_leading,
    lemma_leading_bounds, occurs_at, slice_of, starts_with, string_of, texts, trim, trim_start,
    trimmed, trimmed_start,
};

verus! {

/// The collections and streams whose type argument is that of their elements.
pub const ELEMENT_TYPES: [&'static str; 14] = [
    "List",
    "MutableList",
    "Set",
    "MutableSet",
    "Collection",
    "MutableCollection",
    "Iterable",
    "Sequence",
    "Array",
    "Flow",
    "StateFlow",
    "MutableStateFlow",
    "SharedFlow",
    "MutableSharedFlow",
];

/// The text at `i` is a `>` that closes an angle bracket, not the end of an arrow.
pub open spec fn closes_angle(s: Seq<char>, i: int) -> bool {
    s[i] == '>' && !(i > 0 && s[i - 1] == '-')
}

/// Where the angle bracket opened at depth `depth` before position `i` is closed, one past the
/// `>`.
pub open spec fn angle_end(s: Seq<char>, i: int, depth: int) -> Option<int>
    decreases s.len() - i,
{
    if i < 0 || i >= s.len() {
        None
    } else if s[i] == '<' {
        angle_end(s, i + 1, depth + 1)
    } else if closes_angle(s, i) {
        if depth <= 1 {
            Some(i + 1)
        } else {
            angle_end(s, i + 1, depth - 1)
        }
    } else {
        angle_end(s, i + 1, depth)
    }
}

/// Where the type arguments that begin at `n` end; `n` itself where none do.
pub open spec fn arguments_end(s: Seq<char>, n: int) -> int {
    if 0 <= n < s.len() && s[n] == '<' && angle_end(s, n + 1, 1) is Some {
        angle_end(s, n + 1, 1)->0
    } else {
        n
    }
}

/// How long the dotted name is that `s` begins with.
pub open spec fn dotted_len(s: Seq<char>) -> int {
    leading(s, dotted_chars()) as int
}

/// The type that `s` begins with, with its arguments.
pub open spec fn type_of(s: Seq<char>) -> Option<Seq<char>> {
    if dotted_len(s) == 0 {
        None
    } else {
        Some(s.take(arguments_end(s, dotted_len(s))))
    }
}

/// The type without its arguments.
pub open spec fn base_of(t: Seq<char>) -> Seq<char> {
    t.take(dotted_len(t))
}

/// The text starts with an uppercase letter.
pub open spec fn upper_start(s: Seq<char>) -> bool {
    s.len() > 0 && upper_char(s[0])
}

/// The part behind the last dot.
pub open spec fn leaf(s: Seq<char>) -> Seq<char> {
    s.skip(after_last(s, '.'))
}

/// The dotted name is that of a type, from its first segment to its last.
pub open spec fn names_type(d: Seq<char>) -> bool {
    upper_start(d) && upper_start(leaf(d))
}

/// The type whose class literal is the first argument, where the text behind a `(` begins with
/// one.
pub open spec fn literal_of(arguments: Seq<char>) -> Option<Seq<char>> {
    let t = trim_start(arguments);
    let n = dotted_len(t);
    if names_type(t.take(n)) && starts_with(t.skip(n), "::class"@) {
        Some(t.take(n))
    } else {
        None
    }
}

/// The type of a call: a constructor's own type with its arguments, else the type argument of
/// a generic call, else the class literal that is passed first.
pub open spec fn call_type(e: Seq<char>) -> Option<Seq<char>> {
    let n = dotted_len(e);
    let name = e.take(n);
    let close = arguments_end(e, n);
    if n == 0 || close >= e.len() || e[close] != '(' {
        None
    } else if names_type(name) {
        Some(e.take(close))
    } else if close > n {
        let argument = trim(e.subrange(n + 1, close - 1));
        if upper_start(argument) {
            Some(argument)
        } else {
            None
        }
    } else {
        literal_of(e.skip(n + 1))
    }
}

/// The name stands at `i` as a whole word, and is no member of something else.
pub open spec fn name_at(line: Seq<char>, name: Seq<char>, i: int) -> bool {
    &&& name.len() > 0
    &&& occurs_at(line, name, i)
    &&& word_ends(line, i + name.len())
    &&& i > 0 ==> !word_char(line[i - 1]) && line[i - 1] != '.'
}

/// The type that is annotated right behind a name.
pub open spec fn annotated(rest: Seq<char>) -> Option<Seq<char>> {
    let t = trim_start(rest);
    if t.len() > 0 && t[0] == ':' && !(t.len() > 1 && t[1] == ':') {
        type_of(trim_start(t.skip(1)))
    } else {
        None
    }
}

/// What a `lazy` block begins with; the text itself where it is no such block.
pub open spec fn inside_lazy(e: Seq<char>) -> Seq<char> {
    if starts_with(e, "lazy"@) && trim_start(e.skip(4)).len() > 0 && trim_start(e.skip(4))[0]
        == '{' {
        trim_start(trim_start(e.skip(4)).skip(1))
    } else {
        e
    }
}

/// The expression that is assigned or delegated to right behind a name.
pub open spec fn assigned(rest: Seq<char>) -> Option<Seq<char>> {
    let t = trim_start(rest);
    if t.len() > 0 && t[0] == '=' && !(t.len() > 1 && t[1] == '=') {
        Some(trim_start(t.skip(1)))
    } else if t.len() < rest.len() && starts_with(t, "by "@) {
        Some(inside_lazy(trim_start(t.skip(3))))
    } else {
        None
    }
}

/// The type that the text behind a name gives it: by annotation, or by the call it is assigned.
pub open spec fn given_type(rest: Seq<char>, by_value: bool) -> Option<Seq<char>> {
    if by_value {
        match assigned(rest) {
            Some(e) => call_type(e),
            None => None,
        }
    } else {
        annotated(rest)
    }
}

/// The type that the name standing at `i` is given there.
pub open spec fn type_at(line: Seq<char>, name: Seq<char>, by_value: bool, i: int) -> Option<
    Seq<char>,
> {
    if name_at(line, name, i) {
        given_type(line.skip(i + name.len()), by_value)
    } else {
        None
    }
}

/// The first type that the line gives the name from position `i` on.
pub open spec fn line_type(line: Seq<char>, name: Seq<char>, by_value: bool, i: int) -> Option<
    Seq<char>,
>
    decreases line.len() - i,
{
    if i < 0 || i >= line.len() {
        None
    } else if type_at(line, name, by_value, i) is Some {
        type_at(line, name, by_value, i)
    } else {
        line_type(line, name, by_value, i + 1)
    }
}

/// The first type that the lines give the name from line `k` on.
pub open spec fn lines_type(
    lines: Seq<Seq<char>>,
    name: Seq<char>,
    by_value: bool,
    k: int,
) -> Option<Seq<char>>
    decreases lines.len() - k,
{
    if k < 0 || k >= lines.len() {
        None
    } else if line_type(lines[k], name, by_value, 0) is Some {
        line_type(lines[k], name, by_value, 0)
    } else {
        lines_type(lines, name, by_value, k + 1)
    }
}

/// The type of the name, with its arguments: an annotation anywhere in the lines comes before
/// any assigned call.
pub open spec fn inferred(lines: Seq<Seq<char>>, name: Seq<char>) -> Option<Seq<char>> {
    if lines_type(lines, name, false, 0) is Some {
        lines_type(lines, name, false, 0)
    } else {
        lines_type(lines, name, true, 0)
    }
}

/// One of the element types is `base`.
pub open spec fn holds_elements(base: Seq<char>) -> bool {
    exists|i: int| 0 <= i < 14 && #[trigger] ELEMENT_TYPES@[i]@ == base
}

/// The type of the elements of a collection type.
pub open spec fn element_of(t: Seq<char>) -> Option<Seq<char>> {
    let n = dotted_len(t);
    let end = arguments_end(t, n);
    if holds_elements(t.take(n)) && end > n {
        Some(trim(t.subrange(n + 1, end - 1)))
    } else {
        None
    }
}

proof fn lemma_angle_end(s: Seq<char>, i: int, depth: int)
    requires
        0 <= i,
    ensures
        angle_end(s, i, depth) matches Some(e) ==> i < e <= s.len() && s[e - 1] == '>',
    decreases s.len() - i,
{
    if i < s.len() {
        if s[i] == '<' {
            lemma_angle_end(s, i + 1, depth + 1);
        } else if closes_angle(s, i) {
            if depth > 1 {
                lemma_angle_end(s, i + 1, depth - 1);
            }
        } else {
            lemma_angle_end(s, i + 1, depth);
        }
    }
}

proof fn lemma_arguments_end(s: Seq<char>, n: int)
    requires
        0 <= n <= s.len(),
    ensures
        n <= arguments_end(s, n) <= s.len(),
        arguments_end(s, n) > n ==> s[n] == '<' && arguments_end(s, n) >= n + 2,
{
    lemma_angle_end(s, n + 1, 1);
}

/// An annotation wins over whatever is assigned.
pub proof fn annotation_wins(lines: Seq<Seq<char>>, name: Seq<char>)
    requires
        lines_type(lines, name, false, 0) is Some,
    ensures
        inferred(lines, name) == lines_type(lines, name, false, 0),
{
}

/// The base of a type is what it begins with, and holds no type arguments.
pub proof fn base_has_no_arguments(t: Seq<char>)
    ensures
        starts_with(t, base_of(t)),
        !base_of(t).contains('<'),
{
    lemma_leading_bounds(t, dotted_chars());
    let b = base_of(t);
    assert(t.subrange(0, b.len() as int) =~= b);
    if b.contains('<') {
        let i = b.index_of('<');
        assert(t[i] == '<');
        assert((dotted_chars())(t[i]));
    }
}

/// How long the dotted name is that `s` begins with.
pub fn dotted_prefix_len(s: &[char]) -> (n: usize)
    ensures
        n == dotted_len(s@),
        n <= s@.len(),
{
    let mut n: usize = 0;
    while n < s.len() && (is_id_char(s[n]) || s[n] == '.')
        invariant
            n <= s@.len(),
            forall|j: int| 0 <= j < n ==> (dotted_chars())(#[trigger] s@[j]),
        decreases s@.len() - n,
    {
        n += 1;
    }
    proof {
        lemma_leading(s@, dotted_chars(), n as int);
    }
    n
}

/// Where the type arguments that begin at `n` end; `n` itself where none do.
fn find_arguments_end(s: &[char], n: usize) -> (r: usize)
    requires
        n <= s@.len(),
    ensures
        r == arguments_end(s@, n as int),
        n <= r <= s@.len(),
        r > n ==> r >= n + 2,
{
    proof {
        lemma_arguments_end(s@, n as int);
    }
    if n >= s.len() || s[n] != '<' {
        return n;
    }
    let mut i: usize = n + 1;
    let mut depth: usize = 1;
    while i < s.len()
        invariant
            n < i <= s.len(),
            n < s@.len(),
            s@[n as int] == '<',
            1 <= depth <= i - n,
            angle_end(s@, n + 1, 1) == angle_end(s@, i as int, depth as int),
            arguments_end(s@, n as int) > n ==> arguments_end(s@, n as int) >= n + 2,
        decreases s@.len() - i,
    {
        if s[i] == '<' {
            depth += 1;
        } else if s[i] == '>' && s[i - 1] != '-' {
            if depth == 1 {
                return i + 1;
            }
            depth -= 1;
        }
        i += 1;
    }
    n
}

/// The type that `s` begins with, with its arguments.
fn read_type(s: &[char]) -> (r: Option<Vec<char>>)
    ensures
        match r {
            Some(t) => type_of(s@) == Some(t@),
            None => type_of(s@) is None,
        },
{
    let n: usize = dotted_prefix_len(s);
    if n == 0 {
        return None;
    }
    let end: usize = find_arguments_end(s, n);
    let t = slice_of(s, 0, end);
    assert(t@ =~= s@.take(end as int));
    Some(t)
}

/// Whether the text starts with an uppercase letter.
fn starts_upper(s: &[char]) -> (r: bool)
    ensures
        r == upper_start(s@),
{
    s.len() > 0 && s[0].is_uppercase()
}

/// Whether the dotted name is that of a type.
fn is_type_name(d: &[char]) -> (r: bool)
    ensures
        r == names_type(d@),
{
    let n: usize = find_last(d, '.');
    let last = slice_of(d, n, d.len());
    assert(last@ =~= leaf(d@));
    starts_upper(d) && starts_upper(last.as_slice())
}

/// The type whose class literal the arguments begin with.
fn read_literal(arguments: &[char]) -> (r: Option<Vec<char>>)
    ensures
        match r {
            Some(t) => literal_of(arguments@) == Some(t@),
            None => literal_of(arguments@) is None,
        },
{
    let t = trimmed_start(arguments);
    let n: usize = dotted_prefix_len(t.as_slice());
    let name = slice_of(t.as_slice(), 0, n);
    assert(name@ =~= t@.take(n as int));
    let rest = slice_of(t.as_slice(), n, t.len());
    assert(rest@ =~= t@.skip(n as int));
    if is_type_name(name.as_slice()) && begins_with(rest.as_slice(), "::class") {
        Some(name)
    } else {
        None
    }
}

/// The type of a call.
fn read_call(e: &[char]) -> (r: Option<Vec<char>>)
    ensures
        match r {
            Some(t) => call_type(e@) == Some(t@),
            None => call_type(e@) is None,
        },
{
    let n: usize = dotted_prefix_len(e);
    let close: usize = find_arguments_end(e, n);
    if n == 0 || close >= e.len() || e[close] != '(' {
        return None;
    }
    let name = slice_of(e, 0, n);
    assert(name@ =~= e@.take(n as int));
    if is_type_name(name.as_slice()) {
        let t = slice_of(e, 0, close);
        assert(t@ =~= e@.take(close as int));
        return Some(t);
    }
    if close > n {
        let argument = trimmed(slice_of(e, n + 1, close - 1).as_slice());
        if starts_upper(argument.as_slice()) {
            return Some(argument);
        }
        return None;
    }
    let arguments = slice_of(e, n + 1, e.len());
    assert(arguments@ =~= e@.skip(n + 1));
    read_literal(arguments.as_slice())
}

/// The type that is annotated right behind a name.
fn read_annotation(rest: &[char]) -> (r: Option<Vec<char>>)
    ensures
        match r {
            Some(t) => annotated(rest@) == Some(t@),
            None => annotated(rest@) is None,
        },
{
    let t = trimmed_start(rest);
    if t.len() == 0 || t[0] != ':' || (t.len() > 1 && t[1] == ':') {
        return None;
    }
    let behind = slice_of(t.as_slice(), 1, t.len());
    assert(behind@ =~= t@.skip(1));
    read_type(trimmed_start(behind.as_slice()).as_slice())
}

/// What a `lazy` block begins with; the text itself where it is no such block.
fn enter_lazy(e: Vec<char>) -> (r: Vec<char>)
    ensures
        r@ == inside_lazy(e@),
{
    if !begins_with(e.as_slice(), "lazy") {
        return e;
    }
    proof {
        reveal_strlit("lazy");
    }
    let behind = slice_of(e.as_slice(), 4, e.len());
    assert(behind@ =~= e@.skip(4));
    let block = trimmed_start(behind.as_slice());
    if block.len() == 0 || block[0] != '{' {
        return e;
    }
    let inside = slice_of(block.as_slice(), 1, block.len());
    assert(inside@ =~= block@.skip(1));
    trimmed_start(inside.as_slice())
}

/// The expression that is assigned or delegated to right behind a name.
fn read_assigned(rest: &[char]) -> (r: Option<Vec<char>>)
    ensures
        match r {
            Some(e) => assigned(rest@) == Some(e@),
            None => assigned(rest@) is None,
        },
{
    let t = trimmed_start(rest);
    proof {
        lemma_leading_bounds(rest@, crate::text::spaces());
        reveal_strlit("by ");
    }
    if t.len() > 0 && t[0] == '=' && !(t.len() > 1 && t[1] == '=') {
        let behind = slice_of(t.as_slice(), 1, t.len());
        assert(behind@ =~= t@.skip(1));
        return Some(trimmed_start(behind.as_slice()));
    }
    if t.len() < rest.len() && begins_with(t.as_slice(), "by ") {
        let behind = slice_of(t.as_slice(), 3, t.len());
        assert(behind@ =~= t@.skip(3));
        return Some(enter_lazy(trimmed_start(behind.as_slice())));
    }
    None
}

/// Whether the name stands at `i` as a whole word, and is no member of something else.
pub fn is_name_at(line: &[char], name: &[char], i: usize) -> (r: bool)
    ensures
        r == name_at(line@, name@, i as int),
{
    if name.len() == 0 || !at(line, name, i) {
        return false;
    }
    assert(i + name.len() <= line.len());
    let end: usize = i + name.len();
    if end < line.len() && is_id_char(line[end]) {
        return false;
    }
    i == 0 || (!is_id_char(line[i - 1]) && line[i - 1] != '.')
}

/// The first type that the line gives the name.
fn read_line(line: &[char], name: &[char], by_value: bool) -> (r: Option<Vec<char>>)
    ensures
        match r {
            Some(t) => line_type(line@, name@, by_value, 0) == Some(t@),
            None => line_type(line@, name@, by_value, 0) is None,
        },
{
    let mut i: usize = 0;
    while i < line.len()
        invariant
            i <= line@.len(),
            line_type(line@, name@, by_value, 0) == line_type(line@, name@, by_value, i as int),
        decreases line@.len() - i,
    {
        if is_name_at(line, name, i) {
            let rest = slice_of(line, i + name.len(), line.len());
            assert(rest@ =~= line@.skip(i + name@.len()));
            let t = if by_value {
                match read_assigned(rest.as_slice()) {
                    Some(e) => read_call(e.as_slice()),
                    None => None,
                }
            } else {
                read_annotation(rest.as_slice())
            };
            if t.is_some() {
                return t;
            }
        }
        i += 1;
    }
    None
}

/// The first type that the lines give the name.
fn read_lines(lines: &[String], name: &[char], by_value: bool) -> (r: Option<Vec<char>>)
    ensures
        match r {
            Some(t) => lines_type(texts(lines@), name@, by_value, 0) == Some(t@),
            None => lines_type(texts(lines@), name@, by_value, 0) is None,
        },
{
    let ghost all = texts(lines@);
    let mut k: usize = 0;
    while k < lines.len()
        invariant
            k <= lines@.len(),
            all == texts(lines@),
            lines_type(all, name@, by_value, 0) == lines_type(all, name@, by_value, k as int),
        decreases lines@.len() - k,
    {
        let t = read_line(chars_of(lines[k].as_str()).as_slice(), name, by_value);
        if t.is_some() {
            return t;
        }
        k += 1;
    }
    None
}

/// The type of the name as the lines give it, with its arguments.
///
/// An explicit annotation anywhere comes first; else the type comes from a constructor call,
/// a type argument or a class literal that is assigned.
pub fn infer_type_in_lines_raw(lines: &[String], name: &str) -> (r: Option<String>)
    ensures
        match r {
            Some(t) => inferred(texts(lines@), name@) == Some(t@),
            None => inferred(texts(lines@), name@) is None,
        },
{
    let n = chars_of(name);
    if let Some(t) = read_lines(lines, n.as_slice(), false) {
        return Some(string_of(t.as_slice()));
    }
    match read_lines(lines, n.as_slice(), true) {
        Some(t) => Some(string_of(t.as_slice())),
        None => None,
    }
}

/// The type of the name as the lines give it, without its arguments.
pub fn infer_type_in_lines(lines: &[String], name: &str) -> (r: Option<String>)
    ensures
        match r {
            Some(t) => inferred(texts(lines@), name@) is Some && t@ == base_of(
                inferred(texts(lines@), name@)->0,
            ),
            None => inferred(texts(lines@), name@) is None,
        },
{
    match infer_type_in_lines_raw(lines, name) {
        Some(raw) => {
            let v = chars_of(raw.as_str());
            let n: usize = dotted_prefix_len(v.as_slice());
            let base = slice_of(v.as_slice(), 0, n);
            assert(base@ =~= base_of(raw@));
            Some(string_of(base.as_slice()))
        },
        None => None,
    }
}

/// Whether one of the element types is `base`.
fn has_elements(base: &str) -> (r: bool)
    ensures
        r == holds_elements(base@),
{
    for i in 0..14
        invariant
            forall|j: int| 0 <= j < i ==> #[trigger] ELEMENT_TYPES@[j]@ != base@,
    {
        if eq_str(ELEMENT_TYPES[i], base) {
            return true;
        }
    }
    false
}

/// The type of the elements of a collection or stream; none for a map, whose elements are
/// entries, and for any other type.
pub fn extract_collection_element_type(raw: &str) -> (r: Option<String>)
    ensures
        match r {
            Some(t) => element_of(raw@) == Some(t@),
            None => element_of(raw@) is None,
        },
{
    let v = chars_of(raw);
    let n: usize = dotted_prefix_len(v.as_slice());
    let end: usize = find_arguments_end(v.as_slice(), n);
    let base = slice_of(v.as_slice(), 0, n);
    assert(base@ =~= v@.take(n as int));
    if !has_elements(string_of(base.as_slice()).as_str()) || end == n {
        return None;
    }
    let inside = slice_of(v.as_slice(), n + 1, end - 1);
    Some(string_of(trimmed(inside.as_slice()).as_slice()))
}

} // verus!
