//! How well a typed prefix matches a name, and in what context it stands.
use vstd::prelude::*;

use crate::chars::upper_char;
use crate::rg::find::lower_case;
use crate::text::{
    at, begins_with, chars_of, contains, contains_text, is_digit, slice_of, starts_with,
};

verus! {

/// The name without an underscore at its start.
pub open spec fn without_underscore(name: Seq<char>) -> Seq<char> {
    if name.len() > 0 && name[0] == '_' {
        name.skip(1)
    } else {
        name
    }
}

/// The uppercase letters of the text, in order.
pub open spec fn uppercase_letters() -> spec_fn(char) -> bool {
    |c: char| upper_char(c)
}

/// The first letter and the uppercase ones behind it: `myStateFlow` gives `mSF`.
pub open spec fn acronym(name: Seq<char>) -> Seq<char> {
    if name.len() == 0 {
        name
    } else {
        seq![name[0]] + name.skip(1).filter(uppercase_letters())
    }
}

/// How well the typed text matches the name: 0 where the name begins with it in either case,
/// 1 where its acronym does, 2 where it holds it in either case.
pub open spec fn score(name: Seq<char>, typed: Seq<char>) -> Option<u8> {
    if starts_with(lower_case(name), lower_case(typed)) {
        Some(0)
    } else if starts_with(acronym(without_underscore(name)), typed) {
        Some(1)
    } else if contains_text(lower_case(name), lower_case(typed)) {
        Some(2)
    } else {
        None
    }
}

/// The name is written in capitals: at least one, and otherwise digits and underscores.
pub open spec fn in_capitals(name: Seq<char>) -> bool {
    &&& exists|i: int| 0 <= i < name.len() && upper_char(#[trigger] name[i])
    &&& forall|i: int|
        0 <= i < name.len() ==> upper_char(#[trigger] name[i]) || is_digit(name[i]) || name[i]
            == '_'
}

/// The typed text stands at the end of the line, right behind an `@`.
pub open spec fn behind_at(line: Seq<char>, typed: Seq<char>) -> bool {
    line.len() > typed.len() && line.skip(line.len() - typed.len()) == typed && line[line.len()
        - typed.len() - 1] == '@'
}

/// A name matches itself best.
pub proof fn names_match_themselves(name: Seq<char>)
    ensures
        score(name, name) == Some(0u8),
{
    let l = lower_case(name);
    assert(l.subrange(0, l.len() as int) =~= l);
}

/// Whatever text is typed, a name that begins with it matches best, one that only holds it
/// comes behind one whose acronym begins with it.
pub proof fn better_matches_score_lower(name: Seq<char>, typed: Seq<char>)
    ensures
        starts_with(lower_case(name), lower_case(typed)) ==> score(name, typed) == Some(0u8),
        score(name, typed) == Some(1u8) ==> starts_with(acronym(without_underscore(name)), typed),
        score(name, typed) == Some(2u8) ==> contains_text(lower_case(name), lower_case(typed))
            && !starts_with(acronym(without_underscore(name)), typed),
        score(name, typed) is None ==> !contains_text(lower_case(name), lower_case(typed)),
{
}

/// The acronym of the name.
fn acronym_of(name: &[char]) -> (r: Vec<char>)
    ensures
        r@ == acronym(without_underscore(name@)),
{
    let start: usize = if name.len() > 0 && name[0] == '_' {
        1
    } else {
        0
    };
    let base = slice_of(name, start, name.len());
    assert(base@ =~= without_underscore(name@));
    let mut r: Vec<char> = Vec::new();
    if base.len() == 0 {
        assert(r@ =~= base@);
        return r;
    }
    r.push(base[0]);
    let ghost rest = base@.skip(1);
    proof {
        reveal(Seq::filter);
        assert(r@ =~= seq![base@[0]] + rest.take(0).filter(uppercase_letters()));
    }
    let mut i: usize = 1;
    while i < base.len()
        invariant
            1 <= i <= base@.len(),
            rest == base@.skip(1),
            r@ == seq![base@[0]] + rest.take(i - 1).filter(uppercase_letters()),
        decreases base@.len() - i,
    {
        proof {
            reveal(Seq::filter);
            assert(rest.take(i as int).drop_last() =~= rest.take(i - 1));
            assert(rest.take(i as int).last() == base@[i as int]);
        }
        let ghost before = rest.take(i - 1).filter(uppercase_letters());
        if base[i].is_uppercase() {
            r.push(base[i]);
            assert(r@ =~= seq![base@[0]] + before.push(base@[i as int]));
        }
        i += 1;
    }
    assert(rest.take(rest.len() as int) =~= rest);
    r
}

/// How well `prefix` matches `name`: 0 for a prefix, 1 for an acronym, 2 for a substring.
pub fn match_score(name: &str, prefix: &str) -> (r: Option<u8>)
    ensures
        r == score(name@, prefix@),
{
    let lower_name = name.to_lowercase();
    let lower_prefix = prefix.to_lowercase();
    let v = chars_of(lower_name.as_str());
    if begins_with(v.as_slice(), lower_prefix.as_str()) {
        return Some(0);
    }
    if begins_with(acronym_of(chars_of(name).as_slice()).as_slice(), prefix) {
        return Some(1);
    }
    if contains(v.as_slice(), lower_prefix.as_str()) {
        return Some(2);
    }
    None
}

/// Whether the name is written in capitals, as `MAX_SIZE` is.
pub fn is_screaming_snake(name: &str) -> (r: bool)
    ensures
        r == in_capitals(name@),
{
    let v = chars_of(name);
    let mut any = false;
    for i in 0..v.len()
        invariant
            v@ == name@,
            any == exists|j: int| 0 <= j < i && upper_char(#[trigger] v@[j]),
            forall|j: int|
                0 <= j < i ==> upper_char(#[trigger] v@[j]) || is_digit(v@[j]) || v@[j] == '_',
    {
        let c = v[i];
        if c.is_uppercase() {
            assert(upper_char(v@[i as int]));
            any = true;
        } else if !('0' <= c && c <= '9') && c != '_' {
            return false;
        }
    }
    any
}

/// Whether the cursor stands in an annotation: the prefix ends the line before it, right
/// behind an `@`.
pub fn is_annotation_context(line_before_cursor: &str, prefix: &str) -> (r: bool)
    ensures
        r == behind_at(line_before_cursor@, prefix@),
{
    let line = chars_of(line_before_cursor);
    let p = chars_of(prefix);
    if line.len() <= p.len() {
        return false;
    }
    let n: usize = line.len() - p.len();
    proof {
        assert(line@.subrange(n as int, n + p@.len() as int) =~= line@.skip(n as int));
    }
    at(line.as_slice(), p.as_slice(), n) && line[n - 1] == '@'
}

} // verus!
