//! What an import path says of packages and files, and where imports go.
use vstd::prelude::*;

use crate::chars::upper_char;
use crate::rg::pattern::SOURCE_EXTENSIONS;
use crate::text::{
    after_last, begins_with, chars_of, eq_str, find_last, join, slice_of, split, split_on,
    split_then_join, starts_with, string_of, texts, trim_start, trimmed_start,
};
use crate::types::{last_segment_of, ImportEntry};

verus! {

/// The segments of a dotted path.
pub open spec fn segments(path: Seq<char>) -> Seq<Seq<char>> {
    split_on(path, '.')
}

/// The segment starts with an uppercase letter, as the name of a type does.
pub open spec fn names_type(segment: Seq<char>) -> bool {
    segment.len() > 0 && upper_char(segment[0])
}

/// How many segments stand before the first that names a type.
pub open spec fn package_len(parts: Seq<Seq<char>>) -> nat
    decreases parts.len(),
{
    if parts.len() > 0 && !names_type(parts[0]) {
        1 + package_len(parts.skip(1))
    } else {
        0
    }
}

/// The package of a dotted path: what stands before its first type.
pub open spec fn package_of(path: Seq<char>) -> Seq<char> {
    join(segments(path).take(package_len(segments(path)) as int), seq!['.'])
}

/// The dotted path without its last segment.
pub open spec fn qualifier_of(path: Seq<char>) -> Seq<char> {
    if after_last(path, '.') > 0 {
        path.take(after_last(path, '.') - 1)
    } else {
        Seq::empty()
    }
}

/// Naming a type.
pub open spec fn type_names() -> spec_fn(Seq<char>) -> bool {
    |s: Seq<char>| names_type(s)
}

/// The last `n` of the texts.
pub open spec fn last_of(s: Seq<Seq<char>>, n: int) -> Seq<Seq<char>> {
    if s.len() <= n {
        s
    } else {
        s.skip(s.len() - n)
    }
}

/// The names that the file of an imported symbol may have: its innermost type and the type
/// around it, the outer one first.
pub open spec fn stems_of(path: Seq<char>) -> Seq<Seq<char>> {
    last_of(segments(path).filter(type_names()), 2)
}

/// The stem with each source extension.
pub open spec fn files_of(stem: Seq<char>) -> Seq<Seq<char>> {
    Seq::new(3, |i: int| stem.push('.') + SOURCE_EXTENSIONS@[i]@)
}

/// The files of the stems, stem after stem.
pub open spec fn candidates_of(stems: Seq<Seq<char>>) -> Seq<Seq<char>>
    decreases stems.len(),
{
    if stems.len() == 0 {
        Seq::empty()
    } else {
        candidates_of(stems.drop_last()) + files_of(stems.last())
    }
}

/// The import makes the fully qualified name usable by its own last segment.
pub open spec fn imports_name(entry: ImportEntry, fqn: Seq<char>) -> bool {
    if entry.is_star {
        entry.full_path@ == qualifier_of(fqn)
    } else {
        entry.full_path@ == fqn && entry.local_name@ == last_segment_of(fqn)
    }
}

/// The line is an import.
pub open spec fn import_line(line: Seq<char>) -> bool {
    starts_with(trim_start(line), "import "@)
}

/// The line declares the package.
pub open spec fn package_line(line: Seq<char>) -> bool {
    starts_with(trim_start(line), "package "@)
}

/// One more than the number of the last line that is an import (`imports`) or a package
/// declaration; 0 where there is none.
pub open spec fn after_last_line(lines: Seq<Seq<char>>, imports: bool) -> nat
    decreases lines.len(),
{
    if lines.len() == 0 {
        0
    } else if (imports && import_line(lines.last())) || (!imports && package_line(lines.last())) {
        lines.len()
    } else {
        after_last_line(lines.drop_last(), imports)
    }
}

/// The line to insert an import at: behind the last import, else behind the package
/// declaration, else at the top.
pub open spec fn insertion_line(lines: Seq<Seq<char>>) -> nat {
    if after_last_line(lines, true) > 0 {
        after_last_line(lines, true)
    } else {
        after_last_line(lines, false)
    }
}

proof fn lemma_after_last_line(lines: Seq<Seq<char>>, imports: bool)
    ensures
        after_last_line(lines, imports) <= lines.len(),
        forall|i: int|
            after_last_line(lines, imports) <= i < lines.len() && imports ==> !import_line(
                #[trigger] lines[i],
            ),
    decreases lines.len(),
{
    if lines.len() > 0 {
        lemma_after_last_line(lines.drop_last(), imports);
        assert forall|i: int|
            after_last_line(lines, imports) <= i < lines.len() && imports implies !import_line(
            #[trigger] lines[i],
        ) by {
            if i < lines.len() - 1 {
                assert(lines.drop_last()[i] == lines[i]);
            }
        }
    }
}

/// An import goes inside the file, and behind every import that is there.
pub proof fn imports_stay_together(lines: Seq<Seq<char>>)
    ensures
        insertion_line(lines) <= lines.len(),
        forall|i: int|
            insertion_line(lines) <= i < lines.len() ==> !import_line(#[trigger] lines[i]),
{
    lemma_after_last_line(lines, true);
    lemma_after_last_line(lines, false);
}

proof fn lemma_package_len(parts: Seq<Seq<char>>)
    ensures
        package_len(parts) <= parts.len(),
        forall|i: int| 0 <= i < package_len(parts) ==> !names_type(#[trigger] parts[i]),
        package_len(parts) < parts.len() ==> names_type(parts[package_len(parts) as int]),
    decreases parts.len(),
{
    if parts.len() > 0 && !names_type(parts[0]) {
        let t = parts.skip(1);
        lemma_package_len(t);
        assert forall|i: int| 0 <= i < package_len(parts) implies !names_type(
            #[trigger] parts[i],
        ) by {
            if i > 0 {
                assert(t[i - 1] == parts[i]);
            }
        }
    }
}

proof fn lemma_package_len_is(parts: Seq<Seq<char>>, n: int)
    requires
        0 <= n <= parts.len(),
        forall|i: int| 0 <= i < n ==> !names_type(#[trigger] parts[i]),
        n < parts.len() ==> names_type(parts[n]),
    ensures
        package_len(parts) == n,
    decreases parts.len(),
{
    if n > 0 {
        assert(!names_type(parts[0]));
        let t = parts.skip(1);
        assert forall|i: int| 0 <= i < n - 1 implies !names_type(#[trigger] t[i]) by {
            assert(t[i] == parts[i + 1]);
        }
        lemma_package_len_is(t, n - 1);
    }
}

proof fn lemma_join_prefix(parts: Seq<Seq<char>>, n: int, sep: Seq<char>)
    requires
        0 <= n <= parts.len(),
    ensures
        starts_with(join(parts, sep), join(parts.take(n), sep)),
    decreases parts.len(),
{
    let whole = join(parts, sep);
    let head = join(parts.take(n), sep);
    if n == parts.len() {
        assert(parts.take(n) =~= parts);
        assert(whole.subrange(0, head.len() as int) =~= head);
    } else {
        lemma_join_prefix(parts.drop_last(), n, sep);
        assert(parts.drop_last().take(n) =~= parts.take(n));
        let before = join(parts.drop_last(), sep);
        assert(before.subrange(0, head.len() as int) == head);
        if parts.len() == 1 {
            assert(head =~= Seq::<char>::empty());
            assert(whole.subrange(0, 0) =~= head);
        } else {
            assert(whole =~= before + sep + parts.last());
            assert(whole.subrange(0, head.len() as int) =~= before.subrange(0, head.len() as int));
        }
    }
}

/// The package is what the path begins with, and names no type.
pub proof fn package_begins_the_path(path: Seq<char>)
    ensures
        starts_with(path, package_of(path)),
        forall|i: int|
            0 <= i < package_len(segments(path)) ==> !names_type(#[trigger] segments(path)[i]),
{
    lemma_package_len(segments(path));
    split_then_join(path, '.');
    lemma_join_prefix(segments(path), package_len(segments(path)) as int, seq!['.']);
}

/// Joins the first `n` of the pieces with dots.
fn join_dots(parts: &Vec<Vec<char>>, n: usize) -> (r: Vec<char>)
    requires
        n <= parts@.len(),
    ensures
        r@ == join(Seq::new(n as nat, |i: int| parts@[i]@), seq!['.']),
{
    let ghost all = Seq::new(n as nat, |i: int| parts@[i]@);
    let mut r: Vec<char> = Vec::new();
    assert(all.take(0) =~= Seq::<Seq<char>>::empty());
    for i in 0..n
        invariant
            n <= parts@.len(),
            all == Seq::new(n as nat, |i: int| parts@[i]@),
            r@ == join(all.take(i as int), seq!['.']),
    {
        assert(all.take(i + 1).drop_last() =~= all.take(i as int));
        let ghost before = r@;
        if i > 0 {
            r.push('.');
        }
        let ghost start = r@;
        let part = &parts[i];
        for k in 0..part.len()
            invariant
                r@ == start + part@.take(k as int),
        {
            r.push(part[k]);
            assert(start + part@.take(k + 1) =~= (start + part@.take(k as int)).push(
                part@[k as int],
            ));
        }
        assert(part@.take(part@.len() as int) =~= part@);
        assert(part@ == all[i as int]);
        assert(r@ =~= if i == 0 {
            all[0]
        } else {
            before + seq!['.'] + all[i as int]
        });
    }
    assert(all.take(n as int) =~= all);
    r
}

/// Whether the segment starts with an uppercase letter.
fn is_type_name(segment: &[char]) -> (r: bool)
    ensures
        r == names_type(segment@),
{
    segment.len() > 0 && segment[0].is_uppercase()
}

/// The package of a dotted path: the segments before its first uppercase one.
pub fn package_prefix(path: &str) -> (r: String)
    ensures
        r@ == package_of(path@),
{
    let parts = split(chars_of(path).as_slice(), '.');
    let ghost segs = segments(path@);
    let mut n: usize = 0;
    while n < parts.len() && !is_type_name(parts[n].as_slice())
        invariant
            n <= parts@.len(),
            parts@.len() == segs.len(),
            segs == segments(path@),
            forall|i: int| 0 <= i < parts@.len() ==> (#[trigger] parts@[i])@ == segs[i],
            forall|i: int| 0 <= i < n ==> !names_type(#[trigger] segs[i]),
        decreases parts@.len() - n,
    {
        assert(parts@[n as int]@ == segs[n as int]);
        n += 1;
    }
    proof {
        if n < parts.len() {
            assert(parts@[n as int]@ == segs[n as int]);
        }
        lemma_package_len_is(segs, n as int);
        assert(Seq::new(n as nat, |i: int| parts@[i]@) =~= segs.take(n as int));
    }
    string_of(join_dots(&parts, n).as_slice())
}

/// The package of an imported symbol: its own name is dropped first, so that a lowercase
/// function does not count as a part of the package.
pub fn import_package_prefix(path: &str) -> (r: String)
    ensures
        r@ == package_of(qualifier_of(path@)),
{
    let v = chars_of(path);
    let n: usize = find_last(v.as_slice(), '.');
    let q = if n > 0 {
        slice_of(v.as_slice(), 0, n - 1)
    } else {
        Vec::new()
    };
    assert(q@ =~= qualifier_of(path@));
    package_prefix(string_of(q.as_slice()).as_str())
}

/// The names that the file of an imported symbol may have, the outer type first.
pub fn import_file_stems(import_path: &str) -> (r: Vec<String>)
    ensures
        texts(r@) == stems_of(import_path@),
{
    let parts = split(chars_of(import_path).as_slice(), '.');
    let ghost segs = segments(import_path@);
    let mut all: Vec<String> = Vec::new();
    proof {
        reveal(Seq::filter);
        assert(texts(all@) =~= segs.take(0).filter(type_names()));
    }
    for i in 0..parts.len()
        invariant
            parts@.len() == segs.len(),
            segs == segments(import_path@),
            forall|i: int| 0 <= i < parts@.len() ==> (#[trigger] parts@[i])@ == segs[i],
            texts(all@) == segs.take(i as int).filter(type_names()),
    {
        proof {
            reveal(Seq::filter);
            assert(segs.take(i + 1).drop_last() =~= segs.take(i as int));
            assert(parts@[i as int]@ == segs[i as int]);
        }
        let ghost before = texts(all@);
        if is_type_name(parts[i].as_slice()) {
            all.push(string_of(parts[i].as_slice()));
            assert(texts(all@) =~= before.push(segs[i as int]));
        }
    }
    assert(segs.take(segs.len() as int) =~= segs);
    let ghost types = texts(all@);
    assert(types.len() == all@.len());
    if all.len() <= 2 {
        return all;
    }
    let n: usize = all.len();
    let mut r: Vec<String> = Vec::new();
    r.push(all[n - 2].clone());
    r.push(all[n - 1].clone());
    assert(texts(r@) =~= types.skip(types.len() - 2));
    r
}

/// The file names that an imported symbol may stand in.
pub fn import_file_candidates(import_path: &str) -> (r: Vec<String>)
    ensures
        texts(r@) == candidates_of(stems_of(import_path@)),
{
    let stems = import_file_stems(import_path);
    let ghost all = texts(stems@);
    let mut r: Vec<String> = Vec::new();
    assert(all.take(0) =~= Seq::<Seq<char>>::empty());
    assert(texts(r@) =~= candidates_of(all.take(0)));
    for i in 0..stems.len()
        invariant
            all == texts(stems@),
            texts(r@) == candidates_of(all.take(i as int)),
    {
        assert(all.take(i + 1).drop_last() =~= all.take(i as int));
        let ghost before = texts(r@);
        let ghost files = files_of(all[i as int]);
        assert(before + files.take(0) =~= before);
        for k in 0..3
            invariant
                i < stems@.len(),
                all == texts(stems@),
                files == files_of(all[i as int]),
                texts(r@) == before + files.take(k as int),
        {
            let ghost sofar = texts(r@);
            let mut file = stems[i].clone();
            file.push('.');
            file.append(SOURCE_EXTENSIONS[k]);
            assert(file@ =~= files[k as int]);
            r.push(file);
            assert(texts(r@) =~= sofar.push(files[k as int]));
            assert(before + files.take(k + 1) =~= sofar.push(files[k as int]));
        }
        assert(files.take(3) =~= files);
    }
    assert(all.take(all.len() as int) =~= all);
    r
}

/// Whether the import makes the name usable by its own last segment.
fn entry_imports(entry: &ImportEntry, fqn: &str) -> (r: bool)
    ensures
        r == imports_name(*entry, fqn@),
{
    let v = chars_of(fqn);
    let n: usize = find_last(v.as_slice(), '.');
    if entry.is_star {
        let q = if n > 0 {
            slice_of(v.as_slice(), 0, n - 1)
        } else {
            Vec::new()
        };
        assert(q@ =~= qualifier_of(fqn@));
        eq_str(entry.full_path.as_str(), string_of(q.as_slice()).as_str())
    } else {
        let last = slice_of(v.as_slice(), n, v.len());
        assert(last@ =~= last_segment_of(fqn@));
        eq_str(entry.full_path.as_str(), fqn) && eq_str(
            entry.local_name.as_str(),
            string_of(last.as_slice()).as_str(),
        )
    }
}

/// Whether one of the imports makes the fully qualified name usable by its own last segment;
/// an import under another name does not.
pub fn already_imported(fqn: &str, imports: &[ImportEntry]) -> (r: bool)
    ensures
        r == exists|i: int| 0 <= i < imports@.len() && imports_name(#[trigger] imports@[i], fqn@),
{
    for i in 0..imports.len()
        invariant
            forall|j: int| 0 <= j < i ==> !imports_name(#[trigger] imports@[j], fqn@),
    {
        if entry_imports(&imports[i], fqn) {
            return true;
        }
    }
    false
}

/// The line to insert an import at.
pub fn import_insertion_line(lines: &[String]) -> (r: usize)
    ensures
        r == insertion_line(texts(lines@)),
{
    let ghost all = texts(lines@);
    let mut after_import: usize = 0;
    let mut after_package: usize = 0;
    assert(all.take(0) =~= Seq::<Seq<char>>::empty());
    for i in 0..lines.len()
        invariant
            all == texts(lines@),
            after_import == after_last_line(all.take(i as int), true),
            after_package == after_last_line(all.take(i as int), false),
    {
        assert(all.take(i + 1).drop_last() =~= all.take(i as int));
        let t = trimmed_start(chars_of(lines[i].as_str()).as_slice());
        if begins_with(t.as_slice(), "import ") {
            after_import = i + 1;
        }
        if begins_with(t.as_slice(), "package ") {
            after_package = i + 1;
        }
    }
    assert(all.take(all.len() as int) =~= all);
    if after_import > 0 {
        after_import
    } else {
        after_package
    }
}

} // verus!
