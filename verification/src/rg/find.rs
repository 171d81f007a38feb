//! Finding the declarations, the implementors and the plain occurrences of a name.
use vstd::prelude::*;

use super::ignore::IgnoreMatcher;
use super::pattern::{build_rg_pattern, declaration_pattern, escaped, regex_escape};
use super::references::{filter_locations, kept_location};
use super::search::{
    hit_view, hit_views, hits_of, location_views, scoped_search, HitView, RgOutput, RgSearch,
    SearchView,
};
use crate::chars::is_ascii_char;
use crate::text::{chars_of, contains, contains_text, string_of, texts, trim, trimmed};
use crate::types::{Location, LocationView};

verus! {

/// The text in lower case, as Unicode has it.
pub uninterp spec fn lower_case(s: Seq<char>) -> Seq<char>;

/// The ASCII letter in lower case; another character as it is.
pub open spec fn ascii_lower(c: char) -> char {
    if 'A' <= c && c <= 'Z' {
        (c as u32 + 32) as char
    } else {
        c
    }
}

/// `str::to_lowercase`: its result depends on the text alone, and ASCII text has its letters
/// `A` to `Z` replaced by `a` to `z`.
pub assume_specification[ str::to_lowercase ](s: &str) -> (r: String)
    ensures
        r@ == lower_case(s@),
        (forall|i: int| 0 <= i < s@.len() ==> is_ascii_char(#[trigger] s@[i])) ==> r@
            == s@.map_values(|c: char| ascii_lower(c)),
;

/// What tells the declaration of a type.
pub const TYPE_KEYWORDS: [&'static str; 5] = [
    "class ",
    "struct ",
    "interface",
    "enum",
    "extension ",
];

/// The text holds a word that tells the declaration of a type.
pub open spec fn tells_type(s: Seq<char>) -> bool {
    exists|k: int| 0 <= k < 5 && contains_text(s, #[trigger] TYPE_KEYWORDS@[k]@)
}

/// The line looks like the declaration of a type that names `name`.
pub open spec fn implementor_line(content: Seq<char>, name: Seq<char>) -> bool {
    tells_type(lower_case(trim(content))) && contains_text(trim(content), name)
}

/// Looking like the declaration of a type that names `name`.
pub open spec fn implements(name: Seq<char>) -> spec_fn(HitView) -> bool {
    |h: HitView| implementor_line(h.content, name)
}

/// Where the hits are.
pub open spec fn located(hits: Seq<HitView>) -> Seq<LocationView> {
    hits.map_values(|h: HitView| h.location)
}

/// The search for the declarations of `name`.
pub open spec fn definition_query(
    name: Seq<char>,
    root: Seq<char>,
    source_paths: Seq<Seq<char>>,
) -> SearchView {
    scoped_search(source_paths, root).with(declaration_pattern(name))
}

/// The search for the lines that hold `name`.
pub open spec fn implementors_query(
    name: Seq<char>,
    root: Seq<char>,
    source_paths: Seq<Seq<char>>,
) -> SearchView {
    scoped_search(source_paths, root).with(name)
}

/// The search for the word `name`.
pub open spec fn word_query(
    name: Seq<char>,
    root: Seq<char>,
    source_paths: Seq<Seq<char>>,
) -> SearchView {
    scoped_search(source_paths, root).of_words().with(escaped(name))
}

/// The root of the search: the given one, else the working directory.
pub open spec fn root_or(root: Option<&str>, cwd: &str) -> Seq<char> {
    match root {
        Some(root) => root@,
        None => cwd@,
    }
}

/// The search for the declarations of `name`, in the source paths where there are any.
pub fn definition_search(
    name: &str,
    root: Option<&str>,
    cwd: &str,
    source_paths: &[String],
) -> (r: RgSearch)
    ensures
        r@ == definition_query(name@, root_or(root, cwd), texts(source_paths@)),
{
    let fallback_root = match root {
        Some(root) => root,
        None => cwd,
    };
    RgSearch::scoped(source_paths, fallback_root).with_pattern(build_rg_pattern(name))
}

/// The declaration sites that the run of [`definition_search`] found, without those in
/// excluded directories.
pub fn rg_find_definition(
    search: &RgSearch,
    output: &RgOutput,
    matcher: Option<&IgnoreMatcher>,
) -> (r: Vec<Location>)
    ensures
        location_views(r@) == located(hits_of(output@, search@.parse_root)).filter(
            kept_location(matcher),
        ),
{
    filter_locations(search.locations(output), matcher)
}

/// The search for the implementors of `name`; none without a root.
pub fn implementors_search(
    name: &str,
    root: Option<&str>,
    source_paths: &[String],
) -> (r: Option<RgSearch>)
    ensures
        match r {
            Some(search) => root is Some && search@ == implementors_query(
                name@,
                root->0@,
                texts(source_paths@),
            ),
            None => root is None,
        },
{
    match root {
        Some(root) => Some(RgSearch::scoped(source_paths, root).with_pattern(name.to_owned())),
        None => None,
    }
}

/// Whether the text holds a word that tells the declaration of a type.
fn names_type(s: &[char]) -> (r: bool)
    ensures
        r == tells_type(s@),
{
    for k in 0..5
        invariant
            forall|j: int| 0 <= j < k ==> !contains_text(s@, #[trigger] TYPE_KEYWORDS@[j]@),
    {
        if contains(s, TYPE_KEYWORDS[k]) {
            assert(contains_text(s@, TYPE_KEYWORDS@[k as int]@));
            return true;
        }
    }
    false
}

/// Whether the line looks like the declaration of a type that names `name`.
pub fn is_implementor_line(content: &str, name: &str) -> (r: bool)
    ensures
        r == implementor_line(content@, name@),
{
    let line = trimmed(chars_of(content).as_slice());
    let lower = string_of(line.as_slice()).as_str().to_lowercase();
    names_type(chars_of(lower.as_str()).as_slice()) && contains(line.as_slice(), name)
}

/// The implementors of `name` that the run of [`implementors_search`] found, without those in
/// excluded directories: the lines that look like declarations of types.
pub fn rg_find_implementors(
    name: &str,
    search: &RgSearch,
    output: &RgOutput,
    matcher: Option<&IgnoreMatcher>,
) -> (r: Vec<Location>)
    ensures
        location_views(r@) == located(
            hits_of(output@, search@.parse_root).filter(implements(name@)),
        ).filter(kept_location(matcher)),
{
    let hits = search.locations_with_content(output);
    let ghost all = hit_views(hits@);
    let mut locs: Vec<Location> = Vec::new();
    proof {
        reveal(Seq::filter);
        assert(location_views(locs@) =~= located(all.take(0).filter(implements(name@))));
    }
    for hit in it: hits
        invariant
            it.seq() == hits@,
            all == hit_views(hits@),
            location_views(locs@) == located(
                all.take(it.index() as int).filter(implements(name@)),
            ),
    {
        let ghost i = it.index() as int;
        let ghost sofar = location_views(locs@);
        proof {
            reveal(Seq::filter);
            assert(all.take(i + 1).drop_last() =~= all.take(i));
            assert(all[i] == hit_view(hit));
        }
        let (location, content) = hit;
        if is_implementor_line(content.as_str(), name) {
            locs.push(location);
            assert(location_views(locs@) =~= sofar.push(location@));
            assert(located(all.take(i + 1).filter(implements(name@))) =~= sofar.push(location@));
        }
    }
    assert(all.take(all.len() as int) =~= all);
    filter_locations(locs, matcher)
}

/// The search for every occurrence of the word `name` under `root`, or in the source paths.
pub fn word_search(name: &str, root: &str, source_paths: &[String]) -> (r: RgSearch)
    ensures
        r@ == word_query(name@, root@, texts(source_paths@)),
{
    RgSearch::scoped(source_paths, root).word_regexp().with_pattern(regex_escape(name))
}

/// The occurrences that the run of [`word_search`] found.
pub fn rg_word_search(search: &RgSearch, output: &RgOutput) -> (r: Vec<Location>)
    ensures
        location_views(r@) == located(hits_of(output@, search@.parse_root)),
{
    search.locations(output)
}

} // verus!
