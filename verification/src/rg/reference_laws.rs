//! What holds of the lines that count as references, and of merging them.
use vstd::prelude::*;

use super::find_laws::{holds, lemma_filter_has};
use super::hits::{
    chain_before, declares, declares_at, dots, dotted, holds_keyword, imports_or_package,
    qualifier_at, word_ends, wrong_at, wrong_qualifier_is_any, wrongly_qualified,
    REFERENCE_DECLARATION_KEYWORDS,
};
use super::ignore::IgnoreMatcher;
use super::laws::{bare_references, class_references, outcome, plain_references};
use super::pattern::{
    direct_import_pattern, escaped, mention_pattern, package_import_pattern, package_pattern,
    qualified_pattern,
};
use super::references::{
    first_stage, fits, in_scope, kept_file, kept_location, scoped_files, search_of, RequestView,
    RgSearchRequest, StageView,
};
use super::search::{files_search, hits_of, HitView, OutputView, SearchView, TargetView};
use crate::chars::word_char;
use crate::path::below;
use crate::str_ext::dotted_chars;
use crate::text::{
    contains_text, extended, extending_is_a_union, leading, lemma_leading, lemma_trailing,
    occurs_at, starts_with, texts, trailing, trim_start,
};
use crate::text_laws::{blank, held_texts, lemma_trailing_bounds, words_begin_behind_white_space};
use crate::types::LocationView;

verus! {

/// The two places are in the same file, line and column.
pub open spec fn same_spot(a: LocationView, b: LocationView) -> bool {
    a.uri == b.uri && a.range.start.line == b.range.start.line && a.range.start.character
        == b.range.start.character
}

/// Merging loses no reference: for every hit that is not skipped and not of another class, the
/// result holds a location in that hit's file, line and column.
pub proof fn merging_loses_no_reference(
    request: RequestView,
    locs: Seq<LocationView>,
    hits: Seq<HitView>,
    k: int,
)
    requires
        0 <= k < hits.len(),
        !request.skips(hits[k]),
        !request.of_other_class(hits[k]),
    ensures
        exists|i: int|
            0 <= i < request.appended(locs, hits).len() && (#[trigger] request.appended(
                locs,
                hits,
            )[i]).uri == hits[k].location.uri && request.appended(locs, hits)[i].range.start.line
                == hits[k].location.range.start.line && request.appended(
                locs,
                hits,
            )[i].range.start.character == hits[k].location.range.start.character,
    decreases hits.len(),
{
    let before = request.appended(locs, hits.drop_last());
    let all = request.appended(locs, hits);
    if k < hits.len() - 1 {
        assert(hits.drop_last()[k] == hits[k]);
        merging_loses_no_reference(request, locs, hits.drop_last(), k);
        let i = choose|i: int|
            0 <= i < before.len() && (#[trigger] before[i]).uri == hits[k].location.uri
                && before[i].range.start.line == hits[k].location.range.start.line
                && before[i].range.start.character == hits[k].location.range.start.character;
        assert(all[i] == before[i]);
    } else if super::references::has_key(before, hits[k].location) {
        let i = choose|i: int|
            0 <= i < before.len() && super::references::key_of(#[trigger] before[i])
                == super::references::key_of(hits[k].location);
        assert(all[i] == before[i]);
    } else {
        assert(all[before.len() as int] == hits[k].location);
    }
}

/// Merging keeps what was found, in its order, adds nothing but hits that are not skipped and
/// not of another class, and adds no second location in a file, line and column that is already
/// there.
pub proof fn merging_adds_new_references_alone(
    request: RequestView,
    locs: Seq<LocationView>,
    hits: Seq<HitView>,
)
    ensures
        request.appended(locs, hits).len() >= locs.len(),
        forall|i: int| 0 <= i < locs.len() ==> #[trigger] request.appended(locs, hits)[i] == locs[i],
        forall|i: int|
            #![trigger request.appended(locs, hits)[i]]
            locs.len() <= i < request.appended(locs, hits).len() ==> exists|k: int|
                0 <= k < hits.len() && (#[trigger] hits[k]).location == request.appended(
                    locs,
                    hits,
                )[i] && !request.skips(hits[k]) && !request.of_other_class(hits[k]),
        forall|i: int, j: int|
            0 <= i < j < request.appended(locs, hits).len() && locs.len() <= j ==> !same_spot(
                #[trigger] request.appended(locs, hits)[i],
                #[trigger] request.appended(locs, hits)[j],
            ),
    decreases hits.len(),
{
    if hits.len() > 0 {
        let d = hits.drop_last();
        merging_adds_new_references_alone(request, locs, d);
        let before = request.appended(locs, d);
        let all = request.appended(locs, hits);
        let h = hits.last();
        assert(hits[hits.len() - 1] == h);
        assert forall|i: int| #![trigger all[i]] locs.len() <= i < all.len() implies exists|k: int|
            0 <= k < hits.len() && (#[trigger] hits[k]).location == all[i] && !request.skips(
                hits[k],
            ) && !request.of_other_class(hits[k]) by {
            if i < before.len() {
                assert(all[i] == before[i]);
                let k = choose|k: int|
                    0 <= k < d.len() && (#[trigger] d[k]).location == before[i] && !request.skips(
                        d[k],
                    ) && !request.of_other_class(d[k]);
                assert(hits[k] == d[k]);
            }
        }
        assert forall|i: int, j: int| 0 <= i < j < all.len() && locs.len() <= j implies !same_spot(
            #[trigger] all[i],
            #[trigger] all[j],
        ) by {
            assert(all[i] == before[i]);
            if j < before.len() {
                assert(all[j] == before[j]);
            } else if same_spot(all[i], all[j]) {
                assert(super::references::key_of(before[i]) == super::references::key_of(
                    h.location,
                ));
                assert(super::references::has_key(before, h.location));
            }
        }
    }
}

/// A line is an import or a package declaration exactly where it begins, behind white space,
/// with `import ` or `package `.
pub proof fn imports_and_packages_begin_their_line(content: Seq<char>)
    ensures
        imports_or_package(content) <==> exists|a: Seq<char>, b: Seq<char>| #[trigger]
            blank(a) && (content == #[trigger] (a + "import "@ + b) || content == a + "package "@
                + b),
{
    reveal_strlit("import ");
    reveal_strlit("package ");
    words_begin_behind_white_space(content, "import "@);
    words_begin_behind_white_space(content, "package "@);
    if starts_with(trim_start(content), "import "@) {
        let (a, b) = choose|a: Seq<char>, b: Seq<char>|
            #![trigger a + "import "@ + b]
            blank(a) && content == a + "import "@ + b;
        assert(blank(a) && content == a + "import "@ + b);
    }
    if starts_with(trim_start(content), "package "@) {
        let (a, b) = choose|a: Seq<char>, b: Seq<char>|
            #![trigger a + "package "@ + b]
            blank(a) && content == a + "package "@ + b;
        let other = a + "import "@ + b;
        assert(blank(a) && content == a + "package "@ + b);
    }
    if exists|a: Seq<char>, b: Seq<char>| #[trigger]
        blank(a) && (content == #[trigger] (a + "import "@ + b) || content == a + "package "@ + b) {
        let (a, b) = choose|a: Seq<char>, b: Seq<char>| #[trigger]
            blank(a) && (content == #[trigger] (a + "import "@ + b) || content == a + "package "@
                + b);
        if content == a + "import "@ + b {
            assert(starts_with(trim_start(content), "import "@));
        } else {
            assert(content == a + "package "@ + b);
            assert(starts_with(trim_start(content), "package "@));
        }
    }
}

/// The text is one of the words that begin a declaration.
pub open spec fn begins_declaration(word: Seq<char>) -> bool {
    word == "class "@ || word == "interface "@ || word == "object "@ || word == "fun "@ || word
        == "val "@ || word == "var "@ || word == "typealias "@ || word == "enum class "@ || word
        == "enum "@ || word == "struct "@ || word == "protocol "@ || word == "func "@ || word
        == "let "@ || word == "extension "@
}

proof fn lemma_keywords()
    ensures
        forall|k: int|
            0 <= k < 14 ==> begins_declaration(#[trigger] REFERENCE_DECLARATION_KEYWORDS@[k]@),
        forall|word: Seq<char>| #[trigger]
            begins_declaration(word) ==> exists|k: int|
                0 <= k < 14 && #[trigger] REFERENCE_DECLARATION_KEYWORDS@[k]@ == word,
{
    assert(REFERENCE_DECLARATION_KEYWORDS@[0]@ == "class "@);
    assert(REFERENCE_DECLARATION_KEYWORDS@[1]@ == "interface "@);
    assert(REFERENCE_DECLARATION_KEYWORDS@[2]@ == "object "@);
    assert(REFERENCE_DECLARATION_KEYWORDS@[3]@ == "fun "@);
    assert(REFERENCE_DECLARATION_KEYWORDS@[4]@ == "val "@);
    assert(REFERENCE_DECLARATION_KEYWORDS@[5]@ == "var "@);
    assert(REFERENCE_DECLARATION_KEYWORDS@[6]@ == "typealias "@);
    assert(REFERENCE_DECLARATION_KEYWORDS@[7]@ == "enum class "@);
    assert(REFERENCE_DECLARATION_KEYWORDS@[8]@ == "enum "@);
    assert(REFERENCE_DECLARATION_KEYWORDS@[9]@ == "struct "@);
    assert(REFERENCE_DECLARATION_KEYWORDS@[10]@ == "protocol "@);
    assert(REFERENCE_DECLARATION_KEYWORDS@[11]@ == "func "@);
    assert(REFERENCE_DECLARATION_KEYWORDS@[12]@ == "let "@);
    assert(REFERENCE_DECLARATION_KEYWORDS@[13]@ == "extension "@);
}

/// A line holds a declaration keyword exactly where it holds one of the fourteen.
pub proof fn declaration_keywords_are_these(content: Seq<char>)
    ensures
        holds_keyword(content) <==> exists|word: Seq<char>| #[trigger]
            begins_declaration(word) && holds(content, word),
{
    lemma_keywords();
    if holds_keyword(content) {
        let k = choose|k: int|
            0 <= k < 14 && contains_text(content, #[trigger] REFERENCE_DECLARATION_KEYWORDS@[k]@);
        let word = REFERENCE_DECLARATION_KEYWORDS@[k]@;
        held_texts(content, word);
        assert(begins_declaration(word) && holds(content, word));
    }
    if exists|word: Seq<char>| #[trigger] begins_declaration(word) && holds(content, word) {
        let word = choose|word: Seq<char>| #[trigger]
            begins_declaration(word) && holds(content, word);
        held_texts(content, word);
        let k = choose|k: int| 0 <= k < 14 && #[trigger] REFERENCE_DECLARATION_KEYWORDS@[k]@ == word;
        assert(contains_text(content, REFERENCE_DECLARATION_KEYWORDS@[k]@));
    }
}

/// A hit is no reference exactly where its line is an import or a package declaration, or where
/// declarations are not wanted, it lies in the file the request comes from and its line holds a
/// declaration keyword.
pub proof fn these_hits_are_skipped(request: RequestView, hit: HitView)
    ensures
        request.skips(hit) <==> (exists|a: Seq<char>, b: Seq<char>| #[trigger]
            blank(a) && (hit.content == #[trigger] (a + "import "@ + b) || hit.content == a
                + "package "@ + b)) || (!request.include_decl && hit.location.uri
            == request.from_uri && exists|word: Seq<char>| #[trigger]
            begins_declaration(word) && holds(hit.content, word)),
{
    imports_and_packages_begin_their_line(hit.content);
    declaration_keywords_are_these(hit.content);
}

/// A line declares a name exactly where a declaration keyword stands right before the name and
/// the name ends there.
pub proof fn declarations_of_a_name(content: Seq<char>, name: Seq<char>)
    ensures
        declares(content, name) <==> exists|word: Seq<char>, a: Seq<char>, b: Seq<char>|
            #![trigger begins_declaration(word), a + (word + name) + b]
            begins_declaration(word) && content == a + (word + name) + b && !(b.len() > 0
                && word_char(b[0])),
{
    lemma_keywords();
    if declares(content, name) {
        let (k, i) = choose|k: int, i: int|
            0 <= k < 14 && #[trigger] declares_at(
                content,
                REFERENCE_DECLARATION_KEYWORDS@[k]@,
                name,
                i,
            );
        let word = REFERENCE_DECLARATION_KEYWORDS@[k]@;
        let p = word + name;
        let a = content.take(i);
        let b = content.skip(i + p.len());
        assert forall|j: int| 0 <= j < p.len() implies content[i + j] == p[j] by {
            assert(content.subrange(i, i + p.len())[j] == p[j]);
        }
        assert(content =~= a + (word + name) + b);
        if b.len() > 0 {
            assert(b[0] == content[i + p.len()]);
        }
        assert(begins_declaration(word));
    }
    if exists|word: Seq<char>, a: Seq<char>, b: Seq<char>|
        #![trigger begins_declaration(word), a + (word + name) + b]
        begins_declaration(word) && content == a + (word + name) + b && !(b.len() > 0 && word_char(
            b[0],
        )) {
        let (word, a, b) = choose|word: Seq<char>, a: Seq<char>, b: Seq<char>|
            #![trigger begins_declaration(word), a + (word + name) + b]
            begins_declaration(word) && content == a + (word + name) + b && !(b.len() > 0
                && word_char(b[0]));
        let k = choose|k: int| 0 <= k < 14 && #[trigger] REFERENCE_DECLARATION_KEYWORDS@[k]@ == word;
        let i = a.len() as int;
        assert(content.subrange(i, i + (word + name).len() as int) =~= word + name);
        if b.len() > 0 {
            assert(content[i + (word + name).len()] == b[0]);
        }
        assert(declares_at(content, REFERENCE_DECLARATION_KEYWORDS@[k]@, name, i));
    }
}

/// The name stands in the line as a whole, behind a dot and, right before it, the qualifier.
pub open spec fn qualified_in(
    s: Seq<char>,
    before: Seq<char>,
    points: Seq<char>,
    qualifier: Seq<char>,
    name: Seq<char>,
    behind: Seq<char>,
) -> bool {
    &&& s == before + points + qualifier + seq!['.'] + name + behind
    &&& !(behind.len() > 0 && word_char(behind[0]))
    &&& qualifier.len() > 0
    &&& qualifier[0] != '.'
    &&& forall|i: int|
        0 <= i < qualifier.len() ==> word_char(#[trigger] qualifier[i]) || qualifier[i] == '.'
    &&& forall|i: int| 0 <= i < points.len() ==> #[trigger] points[i] == '.'
    &&& !(before.len() > 0 && (word_char(before.last()) || before.last() == '.'))
}

/// The chain of identifiers and dots that a text ends with: what stands before it, the dots it
/// begins with, and the rest.
proof fn lemma_pieces(t: Seq<char>, chain: Seq<char>)
    requires
        chain == t.skip(t.len() - trailing(t, dotted_chars())),
    ensures
        ({
            let before = t.take(t.len() - trailing(t, dotted_chars()));
            let points = chain.take(leading(chain, dots()) as int);
            let qualifier = chain.skip(leading(chain, dots()) as int);
            &&& t == before + (points + qualifier)
            &&& qualifier.len() > 0 ==> qualifier[0] != '.'
            &&& forall|i: int|
                0 <= i < qualifier.len() ==> word_char(#[trigger] qualifier[i]) || qualifier[i]
                    == '.'
            &&& forall|i: int| 0 <= i < points.len() ==> #[trigger] points[i] == '.'
            &&& !(before.len() > 0 && (word_char(before.last()) || before.last() == '.'))
        }),
{
    let f = dotted_chars();
    let g = dots();
    lemma_trailing_bounds(t, f);
    crate::text::lemma_leading_bounds(chain, g);
    let from = t.len() - trailing(t, f);
    let n = leading(chain, g) as int;
    let before = t.take(from);
    let points = chain.take(n);
    let qualifier = chain.skip(n);
    assert(chain =~= points + qualifier);
    assert(t =~= before + chain);
    assert forall|j: int| 0 <= j < qualifier.len() implies word_char(#[trigger] qualifier[j])
        || qualifier[j] == '.' by {
        assert(f(t[from + n + j]));
    }
    assert forall|j: int| 0 <= j < points.len() implies #[trigger] points[j] == '.' by {
        assert(g(chain[j]));
    }
    if qualifier.len() > 0 {
        assert(!g(chain[n]));
    }
    if before.len() > 0 {
        assert(before.last() == t[from - 1]);
    }
}

/// What stands before, at and behind the dot and name at `i`.
proof fn lemma_wrong_is_qualified(s: Seq<char>, name: Seq<char>, parent: Seq<char>, i: int)
    requires
        occurs_at(s, dotted(name), i),
        wrong_at(s, name, parent, i),
    ensures
        exists|before: Seq<char>, points: Seq<char>, qualifier: Seq<char>, behind: Seq<char>|
            #[trigger] qualified_in(s, before, points, qualifier, name, behind) && qualifier
                != parent,
{
    let t = s.take(i);
    let chain = chain_before(s, i);
    let before = t.take(t.len() - trailing(t, dotted_chars()));
    let points = chain.take(leading(chain, dots()) as int);
    let qualifier = qualifier_at(s, i);
    let behind = s.skip(i + dotted(name).len());
    lemma_pieces(t, chain);
    lemma_cut(s, dotted(name), i);
    lemma_regroup(before, points, qualifier, name, behind);
    lemma_behind(s, i + dotted(name).len());
    assert(dotted(name).len() == 1 + name.len());
    assert(qualified_in(s, before, points, qualifier, name, behind));
}

proof fn lemma_behind(s: Seq<char>, e: int)
    requires
        0 <= e <= s.len(),
    ensures
        s.skip(e).len() > 0 ==> e < s.len() && s.skip(e)[0] == s[e],
{
}

proof fn lemma_cut(s: Seq<char>, p: Seq<char>, i: int)
    requires
        occurs_at(s, p, i),
    ensures
        s == s.take(i) + p + s.skip(i + p.len()),
{
    assert forall|j: int| 0 <= j < p.len() implies s[i + j] == p[j] by {
        assert(s.subrange(i, i + p.len())[j] == p[j]);
    }
    assert(s =~= s.take(i) + p + s.skip(i + p.len()));
}

proof fn lemma_regroup(
    before: Seq<char>,
    points: Seq<char>,
    qualifier: Seq<char>,
    name: Seq<char>,
    behind: Seq<char>,
)
    ensures
        (before + (points + qualifier)) + dotted(name) + behind == before + points + qualifier
            + seq!['.'] + name + behind,
{
    assert((before + (points + qualifier)) + dotted(name) + behind =~= before + points + qualifier
        + seq!['.'] + name + behind);
}

/// The chain of identifiers and dots that a text ends with, and the dots that chain begins with.
proof fn lemma_chain(before: Seq<char>, points: Seq<char>, qualifier: Seq<char>)
    requires
        qualifier.len() > 0,
        qualifier[0] != '.',
        forall|i: int|
            0 <= i < qualifier.len() ==> word_char(#[trigger] qualifier[i]) || qualifier[i] == '.',
        forall|i: int| 0 <= i < points.len() ==> #[trigger] points[i] == '.',
        !(before.len() > 0 && (word_char(before.last()) || before.last() == '.')),
    ensures
        trailing(before + (points + qualifier), dotted_chars()) == points.len() + qualifier.len(),
        leading(points + qualifier, dots()) == points.len(),
{
    let f = dotted_chars();
    let g = dots();
    let chain = points + qualifier;
    let t = before + chain;
    let a = before.len() as int;
    assert forall|j: int| a <= j < t.len() implies f(#[trigger] t[j]) by {
        if j < a + points.len() {
            assert(t[j] == points[j - a]);
        } else {
            assert(t[j] == qualifier[j - a - points.len()]);
        }
    }
    if a > 0 {
        assert(t[a - 1] == before.last());
    }
    lemma_trailing(t, f, chain.len() as int);
    assert forall|j: int| 0 <= j < points.len() implies g(#[trigger] chain[j]) by {
        assert(chain[j] == points[j]);
    }
    assert(chain[points.len() as int] == qualifier[0]);
    lemma_leading(chain, g, points.len() as int);
}

/// What stands at the end of the first part, and where the second and the third begin.
proof fn lemma_parts(t: Seq<char>, p: Seq<char>, behind: Seq<char>)
    ensures
        ({
            let s = t + p + behind;
            let i = t.len() as int;
            &&& s.take(i) == t
            &&& occurs_at(s, p, i)
            &&& i + p.len() < s.len() ==> behind.len() > 0 && s[i + p.len()] == behind[0]
        }),
{
    let s = t + p + behind;
    let i = t.len() as int;
    assert(s.take(i) =~= t);
    assert(s.subrange(i, i + p.len() as int) =~= p);
}

proof fn lemma_qualifier_is(
    s: Seq<char>,
    t: Seq<char>,
    chain: Seq<char>,
    points: int,
    name: Seq<char>,
    behind: Seq<char>,
)
    requires
        s == t + dotted(name) + behind,
        chain.len() <= t.len(),
        t.skip(t.len() - chain.len()) == chain,
        trailing(t, dotted_chars()) == chain.len(),
        leading(chain, dots()) == points,
        !(behind.len() > 0 && word_char(behind[0])),
    ensures
        occurs_at(s, dotted(name), t.len() as int),
        qualifier_at(s, t.len() as int) == chain.skip(points),
        word_ends(s, t.len() as int + 1 + name.len()),
{
    lemma_parts(t, dotted(name), behind);
    assert(dotted(name).len() == 1 + name.len());
}

proof fn lemma_qualified_is_wrong(
    s: Seq<char>,
    name: Seq<char>,
    parent: Seq<char>,
    before: Seq<char>,
    points: Seq<char>,
    qualifier: Seq<char>,
    behind: Seq<char>,
)
    requires
        qualified_in(s, before, points, qualifier, name, behind),
        qualifier != parent,
    ensures
        exists|i: int| #[trigger] occurs_at(s, dotted(name), i) && wrong_at(s, name, parent, i),
{
    let chain = points + qualifier;
    let t = before + chain;
    lemma_regroup(before, points, qualifier, name, behind);
    lemma_chain(before, points, qualifier);
    lemma_halves(before, chain);
    lemma_halves(points, qualifier);
    lemma_qualifier_is(s, t, chain, points.len() as int, name, behind);
    assert(wrong_at(s, name, parent, t.len() as int));
}

proof fn lemma_halves(a: Seq<char>, b: Seq<char>)
    ensures
        (a + b).skip(a.len() as int) == b,
        (a + b).len() == a.len() + b.len(),
{
    assert((a + b).skip(a.len() as int) =~= b);
}

/// A line is of another class exactly where the name stands in it behind a qualifier that is
/// not the class: the whole chain of identifiers and dots before the name, without the dots it
/// begins with.
pub proof fn lines_of_another_class(s: Seq<char>, name: Seq<char>, parent: Seq<char>)
    requires
        !name.contains('.'),
    ensures
        wrongly_qualified(s, name, parent) <==> exists|
            before: Seq<char>,
            points: Seq<char>,
            qualifier: Seq<char>,
            behind: Seq<char>,
        | #[trigger]
            qualified_in(s, before, points, qualifier, name, behind) && qualifier != parent,
{
    wrong_qualifier_is_any(s, name, parent);
    if wrongly_qualified(s, name, parent) {
        let i = choose|i: int| #[trigger]
            occurs_at(s, dotted(name), i) && wrong_at(s, name, parent, i);
        lemma_wrong_is_qualified(s, name, parent, i);
    }
    if exists|before: Seq<char>, points: Seq<char>, qualifier: Seq<char>, behind: Seq<char>|
        #[trigger] qualified_in(s, before, points, qualifier, name, behind) && qualifier != parent {
        let (before, points, qualifier, behind) = choose|
            before: Seq<char>,
            points: Seq<char>,
            qualifier: Seq<char>,
            behind: Seq<char>,
        | #[trigger] qualified_in(s, before, points, qualifier, name, behind) && qualifier != parent;
        lemma_qualified_is_wrong(s, name, parent, before, points, qualifier, behind);
    }
}

/// Only a request for the member of a class drops hits for their qualifier, and then exactly
/// those whose line is of another class.
pub proof fn qualifiers_matter_to_members_alone(request: RequestView, hit: HitView)
    ensures
        request.parent_class is None ==> !request.of_other_class(hit),
        request.parent_class matches Some(parent) ==> request.of_other_class(hit)
            == wrongly_qualified(hit.content, request.name, parent),
{
}

/// The references among hits are the places of those that are not skipped, in their order, each
/// as often as it is hit.
pub proof fn references_are_the_hits_not_skipped(
    request: RequestView,
    hits: Seq<HitView>,
    more: Seq<HitView>,
    l: LocationView,
)
    ensures
        request.references(hits).contains(l) <==> exists|k: int|
            0 <= k < hits.len() && (#[trigger] hits[k]).location == l && !request.skips(hits[k]),
        request.references(hits + more) == request.references(hits) + request.references(more),
        hits.len() == 1 ==> request.references(hits) == (if request.skips(hits[0]) {
            Seq::empty()
        } else {
            seq![hits[0].location]
        }),
{
    let p = request.takes();
    let kept = hits.filter(p);
    if request.references(hits).contains(l) {
        let i = request.references(hits).index_of(l);
        let h = kept[i];
        hits.lemma_filter_pred(p, i);
        assert(kept.contains(h));
        hits.lemma_filter_contains_rev(p, h);
        let k = hits.index_of(h);
        assert(hits[k].location == l);
    }
    if exists|k: int|
        0 <= k < hits.len() && (#[trigger] hits[k]).location == l && !request.skips(hits[k]) {
        let k = choose|k: int|
            0 <= k < hits.len() && (#[trigger] hits[k]).location == l && !request.skips(hits[k]);
        hits.lemma_filter_contains(p, k);
        let i = kept.index_of(hits[k]);
        assert(request.references(hits)[i] == l);
    }
    Seq::filter_distributes_over_add(hits, more, p);
    assert(request.references(hits + more) =~= request.references(hits) + request.references(
        more,
    ));
    if hits.len() == 1 {
        reveal_with_fuel(Seq::filter, 2);
        assert(hits.drop_last() =~= Seq::<HitView>::empty());
        assert(request.references(hits) =~= (if request.skips(hits[0]) {
            Seq::empty()
        } else {
            seq![hits[0].location]
        }));
    }
}

/// The declaration files that are searched are all of them without source paths, and with
/// source paths those that lie below one of them.
pub proof fn declaration_files_in_scope(
    decl_files: Seq<Seq<char>>,
    source_paths: Seq<Seq<char>>,
    file: Seq<char>,
)
    ensures
        source_paths.len() == 0 ==> scoped_files(decl_files, source_paths) == decl_files,
        source_paths.len() > 0 ==> (scoped_files(decl_files, source_paths).contains(file)
            <==> decl_files.contains(file) && exists|i: int|
            0 <= i < source_paths.len() && below(file, #[trigger] source_paths[i])),
{
    let p = in_scope(source_paths);
    if decl_files.filter(p).contains(file) {
        let i = decl_files.filter(p).index_of(file);
        decl_files.lemma_filter_pred(p, i);
        decl_files.lemma_filter_contains_rev(p, file);
    }
    if decl_files.contains(file) && p(file) {
        decl_files.lemma_filter_contains(p, decl_files.index_of(file));
    }
}

/// Where a request looks: in its source paths, and below its root where it has none.
pub open spec fn scope_target(request: RequestView) -> TargetView {
    if request.source_paths.len() == 0 {
        TargetView::Root(request.search_root)
    } else {
        TargetView::SourcePaths(request.source_paths)
    }
}

/// What each run of a reference search looks for, and where: the name as a whole word; the name
/// behind its class; the files that import it, belong to its package or mention its owner; and
/// then the name as a whole word in the files that were found.
pub proof fn stages_search_for_this(
    request: RequestView,
    found: Seq<LocationView>,
    files: Seq<Seq<char>>,
)
    ensures
        search_of(request, StageView::Plain) == (SearchView {
            parse_root: request.search_root,
            target: scope_target(request),
            patterns: seq![escaped(request.name)],
            word_regexp: true,
            list_files: false,
        }),
        request.parent_class matches Some(parent) ==> {
            &&& search_of(request, StageView::Qualified) == (SearchView {
                parse_root: request.search_root,
                target: scope_target(request),
                patterns: seq![qualified_pattern(parent, request.name)],
                word_regexp: false,
                list_files: false,
            })
            &&& search_of(request, StageView::Importers(found)) == (SearchView {
                parse_root: request.search_root,
                target: scope_target(request),
                patterns: seq![direct_import_pattern(parent, request.name)],
                word_regexp: false,
                list_files: true,
            })
        },
        request.parent_class is None ==> (request.declared_pkg matches Some(package) ==> {
            &&& search_of(request, StageView::PackageImporters) == (SearchView {
                parse_root: request.search_root,
                target: scope_target(request),
                patterns: seq![package_import_pattern(package, request.name)],
                word_regexp: false,
                list_files: true,
            })
            &&& search_of(request, StageView::PackageMembers(files)) == (SearchView {
                parse_root: request.search_root,
                target: scope_target(request),
                patterns: seq![package_pattern(package)],
                word_regexp: false,
                list_files: true,
            })
        }),
        request.owner_class matches Some(owner) ==> search_of(request, StageView::OwnerMentions)
            == (SearchView {
            parse_root: request.search_root,
            target: scope_target(request),
            patterns: seq![mention_pattern(owner)],
            word_regexp: false,
            list_files: true,
        }),
        search_of(request, StageView::Bare(files)) == (SearchView {
            parse_root: "/"@,
            target: TargetView::Files(files),
            patterns: seq![escaped(request.name)],
            word_regexp: true,
            list_files: false,
        }),
        search_of(request, StageView::BareOfParent(found, files)) == (SearchView {
            parse_root: "/"@,
            target: TargetView::Files(files),
            patterns: seq![escaped(request.name)],
            word_regexp: true,
            list_files: false,
        }),
{
    let none = Seq::<Seq<char>>::empty();
    assert forall|p: Seq<char>| #[trigger] none.push(p) == seq![p] by {
        assert(none.push(p) =~= seq![p]);
    }
}

/// Where a search for references begins: with its owner class, else with its class, else with
/// its package, else with the name alone.
pub proof fn searches_begin_with_what_is_known(request: RequestView)
    ensures
        request.owner_class is Some ==> first_stage(request) is OwnerMentions,
        request.owner_class is None && request.parent_class is Some ==> first_stage(
            request,
        ) is Qualified,
        request.owner_class is None && request.parent_class is None && request.declared_pkg is Some
            ==> first_stage(request) is PackageImporters,
        request.owner_class is None && request.parent_class is None && request.declared_pkg is None
            ==> first_stage(request) is Plain,
        fits(request, first_stage(request)),
{
}

/// What the ignore patterns leave: everything without a matcher, and with one what it does not
/// exclude.
pub proof fn matchers_decide_what_is_kept(
    matcher: &IgnoreMatcher,
    l: LocationView,
    file: Seq<char>,
)
    ensures
        (kept_location(None))(l),
        (kept_file(None))(file),
        (kept_location(Some(matcher)))(l) <==> matcher.keeps_uri(l.uri),
        (kept_file(Some(matcher)))(file) <==> !matcher.excludes_path(file),
{
}

/// The files that the member of a class is searched in by its bare name: those that import it
/// and are not excluded, and the declaration files in scope.
pub open spec fn bare_files(
    request: RequestView,
    matcher: Option<&IgnoreMatcher>,
    world: spec_fn(SearchView) -> OutputView,
) -> Seq<Seq<char>> {
    let importers = request.scope().of_files().with(
        direct_import_pattern(request.parent_class->0, request.name),
    );
    extended(
        importers.listed(world(importers).stdout).filter(kept_file(matcher)),
        scoped_files(request.decl_files, request.source_paths),
    )
}

/// Every file that imports the member of a class and is not excluded, and every declaration
/// file in scope, is searched for the bare name; no other file is.
pub proof fn importers_and_declaration_files_are_searched(
    request: RequestView,
    matcher: Option<&IgnoreMatcher>,
    world: spec_fn(SearchView) -> OutputView,
    file: Seq<char>,
)
    requires
        request.parent_class is Some,
    ensures
        ({
            let importers = request.scope().of_files().with(
                direct_import_pattern(request.parent_class->0, request.name),
            );
            bare_files(request, matcher, world).contains(file) <==> (importers.listed(
                world(importers).stdout,
            ).contains(file) && (matcher matches Some(m) ==> !m.excludes_path(file))) || (
            request.decl_files.contains(file) && (request.source_paths.len() == 0 || exists|i: int|
                0 <= i < request.source_paths.len() && below(
                    file,
                    #[trigger] request.source_paths[i],
                )))
        }),
{
    let importers = request.scope().of_files().with(
        direct_import_pattern(request.parent_class->0, request.name),
    );
    let listed = importers.listed(world(importers).stdout);
    lemma_filter_has(listed, kept_file(matcher), file);
    declaration_files_in_scope(request.decl_files, request.source_paths, file);
    extending_is_a_union(
        listed.filter(kept_file(matcher)),
        scoped_files(request.decl_files, request.source_paths),
    );
}

/// Of the member of a class, every hit behind the class that is not skipped and lies in a kept
/// file is among the references; and for every hit of the bare name, in the files that import it
/// or declare it, that is not skipped, not of another class and in a kept file, some reference
/// is in its file, line and column.
pub proof fn references_of_a_member_are_complete(
    request: RequestView,
    matcher: Option<&IgnoreMatcher>,
    world: spec_fn(SearchView) -> OutputView,
    h: HitView,
)
    requires
        request.owner_class is None,
        request.parent_class is Some,
        !request.skips(h),
        matcher matches Some(m) ==> m.keeps_uri(h.location.uri),
    ensures
        ({
            let qualified = request.scope().with(
                qualified_pattern(request.parent_class->0, request.name),
            );
            let bare = files_search(bare_files(request, matcher, world)).of_words().with(
                escaped(request.name),
            );
            let found = outcome(request, matcher, first_stage(request), world);
            &&& hits_of(world(qualified), qualified.parse_root).contains(h) ==> found.contains(
                h.location,
            )
            &&& bare_files(request, matcher, world).len() > 0 && hits_of(
                world(bare),
                bare.parse_root,
            ).contains(h) && !request.of_other_class(h) ==> exists|i: int|
                0 <= i < found.len() && (#[trigger] found[i]).uri == h.location.uri
                    && found[i].range.start.line == h.location.range.start.line
                    && found[i].range.start.character == h.location.range.start.character
        }),
{
    let qualified = request.scope().with(qualified_pattern(request.parent_class->0, request.name));
    let files = bare_files(request, matcher, world);
    let bare = files_search(files).of_words().with(escaped(request.name));
    let outer = hits_of(world(qualified), qualified.parse_root);
    let inner = hits_of(world(bare), bare.parse_root);
    let locs = request.references(outer);
    let all = if files.len() == 0 {
        locs
    } else {
        request.appended(locs, inner)
    };
    let found = outcome(request, matcher, first_stage(request), world);
    class_references(request, matcher, world);
    assert(found == all.filter(kept_location(matcher)));
    if outer.contains(h) {
        references_are_the_hits_not_skipped(request, outer, Seq::empty(), h.location);
        let k = outer.index_of(h);
        assert(outer[k].location == h.location);
        merging_adds_new_references_alone(request, locs, inner);
        let i = locs.index_of(h.location);
        assert(all[i] == h.location);
        assert(all.contains(h.location));
        lemma_filter_has(all, kept_location(matcher), h.location);
    }
    if files.len() > 0 && inner.contains(h) && !request.of_other_class(h) {
        let k = inner.index_of(h);
        merging_loses_no_reference(request, locs, inner, k);
        let i = choose|i: int|
            0 <= i < all.len() && (#[trigger] all[i]).uri == h.location.uri
                && all[i].range.start.line == h.location.range.start.line
                && all[i].range.start.character == h.location.range.start.character;
        let l = all[i];
        assert(all.contains(l));
        lemma_filter_has(all, kept_location(matcher), l);
        let j = found.index_of(l);
        assert(found[j].uri == h.location.uri);
    }
}

/// What is said of a request is what it holds.
pub proof fn requests_say_what_they_hold(request: RgSearchRequest)
    ensures
        request@.name == request.name@,
        request@.parent_class is Some == request.parent_class is Some,
        request.parent_class matches Some(s) ==> request@.parent_class == Some(s@),
        request@.declared_pkg is Some == request.declared_pkg is Some,
        request.declared_pkg matches Some(s) ==> request@.declared_pkg == Some(s@),
        request@.owner_class is Some == request.owner_class is Some,
        request.owner_class matches Some(s) ==> request@.owner_class == Some(s@),
        request@.search_root == request.search_root@,
        request@.source_paths == texts(request.source_paths@),
        request@.include_decl == request.include_decl,
        request@.from_uri == request.from_uri@,
        request@.decl_files == texts(request.decl_files@),
{
}

/// The references of a bare name in files are the places of all hits there that are not skipped
/// and lie in kept files.
pub proof fn bare_references_are_complete(
    request: RequestView,
    matcher: Option<&IgnoreMatcher>,
    files: Seq<Seq<char>>,
    world: spec_fn(SearchView) -> OutputView,
    l: LocationView,
)
    ensures
        ({
            let search = SearchView {
                parse_root: "/"@,
                target: TargetView::Files(files),
                patterns: seq![escaped(request.name)],
                word_regexp: true,
                list_files: false,
            };
            let hits = hits_of(world(search), "/"@);
            &&& files.len() == 0 ==> bare_references(request, matcher, files, world).len() == 0
            &&& files.len() > 0 ==> (bare_references(request, matcher, files, world).contains(l)
                <==> (exists|k: int|
                0 <= k < hits.len() && (#[trigger] hits[k]).location == l && !request.skips(
                    hits[k],
                )) && (matcher matches Some(m) ==> m.keeps_uri(l.uri)))
        }),
{
    let search = files_search(files).of_words().with(escaped(request.name));
    assert(search.patterns =~= seq![escaped(request.name)]);
    let hits = hits_of(world(search), search.parse_root);
    references_are_the_hits_not_skipped(request, hits, Seq::empty(), l);
    lemma_filter_has(request.references(hits), kept_location(matcher), l);
}

/// The files that a name of a package is searched in are exactly those that import it or belong
/// to the package, and are not excluded.
pub proof fn importers_and_members_are_searched(
    importers: Seq<Seq<char>>,
    members: Seq<Seq<char>>,
    matcher: Option<&IgnoreMatcher>,
    file: Seq<char>,
)
    ensures
        extended(importers, members).filter(kept_file(matcher)).contains(file) <==> (
        importers.contains(file) || members.contains(file)) && (matcher matches Some(m)
            ==> !m.excludes_path(file)),
{
    extending_is_a_union(importers, members);
    lemma_filter_has(extended(importers, members), kept_file(matcher), file);
}

/// Of a name alone the references are the places of all hits of the whole word, in the source
/// paths or below the root, that are not skipped and lie in kept files.
pub proof fn plain_references_are_complete(
    request: RequestView,
    matcher: Option<&IgnoreMatcher>,
    world: spec_fn(SearchView) -> OutputView,
    l: LocationView,
)
    requires
        request.owner_class is None,
        request.parent_class is None,
        request.declared_pkg is None,
    ensures
        ({
            let search = SearchView {
                parse_root: request.search_root,
                target: scope_target(request),
                patterns: seq![escaped(request.name)],
                word_regexp: true,
                list_files: false,
            };
            let hits = hits_of(world(search), request.search_root);
            outcome(request, matcher, first_stage(request), world).contains(l) <==> (exists|k: int|
                0 <= k < hits.len() && (#[trigger] hits[k]).location == l && !request.skips(
                    hits[k],
                )) && (matcher matches Some(m) ==> m.keeps_uri(l.uri))
        }),
{
    plain_references(request, matcher, world);
    let search = request.scope().with(escaped(request.name)).of_words();
    assert(search.patterns =~= seq![escaped(request.name)]);
    let hits = hits_of(world(search), search.parse_root);
    references_are_the_hits_not_skipped(request, hits, Seq::empty(), l);
    lemma_filter_has(request.references(hits), kept_location(matcher), l);
}

} // verus!
