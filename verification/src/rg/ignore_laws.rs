//! What holds of the workspace ignore patterns.
use vstd::prelude::*;
use vstd::utf8::encode_utf8;

use super::ignore::{
    expanded, glob_matches, glob_parses, globs_of, globs_of_pattern, normalized, parsing,
    patterns_compile, slashes, without_end_slashes, IgnoreMatcher,
};
use crate::path::relative_to;
use crate::raw_path::relative_bytes;
use crate::text::{texts, trailing};
use crate::text_laws::lemma_trailing_bounds;
use crate::types::Location;
use crate::uri::{uri_file_path, url_text};

verus! {

/// The glob is one of those that the pattern, relative to the root, stands for. A name without
/// a slash stands for every entry of that name, at any depth, and all that lies inside it; a
/// pattern with a slash for what it matches from the root, and all that lies inside that.
pub open spec fn stands_for(pattern: Seq<char>, glob: Seq<char>) -> bool {
    if pattern.contains('/') {
        glob == pattern || exists|head: Seq<char>, end: Seq<char>|
            #![trigger head + end]
            pattern == head + end && (forall|i: int|
                0 <= i < end.len() ==> #[trigger] end[i] == '/') && !(head.len() > 0 && head.last()
                == '/') && glob == head + "/**"@
    } else {
        glob == "**/"@ + pattern || glob == "**/"@ + pattern + "/"@ || glob == "**/"@ + pattern
            + "/**"@
    }
}

proof fn lemma_without_end_slashes(pattern: Seq<char>, head: Seq<char>, end: Seq<char>)
    requires
        pattern == head + end,
        forall|i: int| 0 <= i < end.len() ==> #[trigger] end[i] == '/',
        !(head.len() > 0 && head.last() == '/'),
    ensures
        without_end_slashes(pattern) == head,
{
    assert forall|i: int| pattern.len() - end.len() <= i < pattern.len() implies (slashes())(
        #[trigger] pattern[i],
    ) by {
        assert(pattern[i] == end[i - head.len()]);
    }
    if head.len() > 0 {
        assert(pattern[head.len() - 1] == head.last());
    }
    crate::text::lemma_trailing(pattern, slashes(), end.len() as int);
    assert(without_end_slashes(pattern) =~= head);
}

proof fn lemma_end_slashes(pattern: Seq<char>)
    ensures
        ({
            let head = without_end_slashes(pattern);
            let end = pattern.skip(pattern.len() - trailing(pattern, slashes()));
            &&& pattern == head + end
            &&& forall|i: int| 0 <= i < end.len() ==> #[trigger] end[i] == '/'
            &&& !(head.len() > 0 && head.last() == '/')
        }),
{
    let f = slashes();
    lemma_trailing_bounds(pattern, f);
    let n = pattern.len() - trailing(pattern, f);
    let end = pattern.skip(n);
    assert(pattern =~= without_end_slashes(pattern) + end);
    assert forall|i: int| 0 <= i < end.len() implies #[trigger] end[i] == '/' by {
        assert(f(pattern[n + i]));
    }
    if n > 0 {
        assert(without_end_slashes(pattern).last() == pattern[n - 1]);
    }
}

/// The globs of a pattern are exactly those that it stands for.
pub proof fn patterns_stand_for_their_globs(pattern: Seq<char>, glob: Seq<char>)
    ensures
        expanded(pattern).contains(glob) <==> stands_for(pattern, glob),
{
    let all = expanded(pattern);
    lemma_end_slashes(pattern);
    if pattern.contains('/') {
        let head = without_end_slashes(pattern);
        let end = pattern.skip(pattern.len() - trailing(pattern, slashes()));
        assert(all[0] == pattern && all[1] == head + "/**"@);
        if all.contains(glob) {
            let i = all.index_of(glob);
            if i == 1 {
                assert(pattern == head + end);
            }
        }
        if stands_for(pattern, glob) && glob != pattern {
            let (h, e) = choose|h: Seq<char>, e: Seq<char>|
                #![trigger h + e]
                pattern == h + e && (forall|i: int| 0 <= i < e.len() ==> #[trigger] e[i] == '/')
                    && !(h.len() > 0 && h.last() == '/') && glob == h + "/**"@;
            lemma_without_end_slashes(pattern, h, e);
        }
    } else {
        assert(all[0] == "**/"@ + pattern);
        assert(all[1] == "**/"@ + pattern + "/"@);
        assert(all[2] == "**/"@ + pattern + "/**"@);
        if all.contains(glob) {
            let i = all.index_of(glob);
        }
    }
}

/// A pattern is taken relative to the root: one that is relative is as it is, an absolute one
/// below the root is what is left of it below the root, and one elsewhere stands for nothing.
pub proof fn patterns_are_relative_to_the_root(pattern: Seq<char>, root: Seq<char>)
    ensures
        !(pattern.len() > 0 && pattern[0] == '/') ==> normalized(pattern, root) == Some(pattern),
        pattern.len() > 0 && pattern[0] == '/' ==> normalized(pattern, root) == relative_to(
            pattern,
            root,
        ),
{
}

proof fn lemma_parsing(globs: Seq<Seq<char>>, glob: Seq<char>)
    ensures
        parsing(globs).contains(glob) <==> globs.contains(glob) && glob_parses(glob),
{
    super::find_laws::lemma_filter_has(globs, |g: Seq<char>| glob_parses(g), glob);
}

proof fn lemma_globs_of(patterns: Seq<Seq<char>>, root: Seq<char>, glob: Seq<char>)
    ensures
        globs_of(patterns, root).contains(glob) <==> exists|i: int|
            0 <= i < patterns.len() && globs_of_pattern(#[trigger] patterns[i], root).contains(
                glob,
            ),
    decreases patterns.len(),
{
    if patterns.len() > 0 {
        let d = patterns.drop_last();
        lemma_globs_of(d, root, glob);
        let a = globs_of(d, root);
        let b = globs_of_pattern(patterns.last(), root);
        let all = globs_of(patterns, root);
        assert(all == a + b);
        if all.contains(glob) {
            let k = all.index_of(glob);
            if k < a.len() {
                assert(a[k] == glob);
                let i = choose|i: int|
                    0 <= i < d.len() && globs_of_pattern(#[trigger] d[i], root).contains(glob);
                assert(patterns[i] == d[i]);
            } else {
                assert(b[k - a.len()] == glob);
                assert(patterns[patterns.len() - 1] == patterns.last());
            }
        }
        if exists|i: int|
            0 <= i < patterns.len() && globs_of_pattern(#[trigger] patterns[i], root).contains(
                glob,
            ) {
            let i = choose|i: int|
                0 <= i < patterns.len() && globs_of_pattern(#[trigger] patterns[i], root).contains(
                    glob,
                );
            if i < d.len() {
                assert(d[i] == patterns[i]);
                let k = a.index_of(glob);
                assert(all[k] == glob);
            } else {
                let k = b.index_of(glob);
                assert(all[a.len() + k] == glob);
            }
        }
    }
}

/// A path is excluded exactly where some pattern, relative to the root, stands for a glob that
/// matches it.
pub proof fn paths_are_excluded_by_some_pattern(
    matcher: IgnoreMatcher,
    patterns: Seq<String>,
    root: Seq<char>,
    path: Seq<u8>,
)
    requires
        matcher.built_from(patterns, root),
        patterns_compile(patterns, root),
    ensures
        matcher.excludes_bytes(path) <==> exists|i: int, glob: Seq<char>|
            #![trigger patterns[i], glob_matches(glob, path)]
            0 <= i < patterns.len() && (normalized(patterns[i]@, root) matches Some(pattern)
                && stands_for(pattern, glob)) && glob_parses(glob) && glob_matches(glob, path),
{
    let globs = globs_of(texts(patterns), root);
    assert(matcher.globs() == globs);
    if matcher.excludes_bytes(path) {
        let k = choose|k: int| 0 <= k < globs.len() && glob_matches(#[trigger] globs[k], path);
        let glob = globs[k];
        assert(globs.contains(glob));
        lemma_globs_of(texts(patterns), root, glob);
        let i = choose|i: int|
            0 <= i < texts(patterns).len() && globs_of_pattern(
                #[trigger] texts(patterns)[i],
                root,
            ).contains(glob);
        assert(texts(patterns)[i] == patterns[i]@);
        let pattern = normalized(patterns[i]@, root)->0;
        lemma_parsing(expanded(pattern), glob);
        patterns_stand_for_their_globs(pattern, glob);
        assert(glob_matches(glob, path));
    }
    if exists|i: int, glob: Seq<char>|
        #![trigger patterns[i], glob_matches(glob, path)]
        0 <= i < patterns.len() && (normalized(patterns[i]@, root) matches Some(pattern)
            && stands_for(pattern, glob)) && glob_parses(glob) && glob_matches(glob, path) {
        let (i, glob) = choose|i: int, glob: Seq<char>|
            #![trigger patterns[i], glob_matches(glob, path)]
            0 <= i < patterns.len() && (normalized(patterns[i]@, root) matches Some(pattern)
                && stands_for(pattern, glob)) && glob_parses(glob) && glob_matches(glob, path);
        let pattern = normalized(patterns[i]@, root)->0;
        lemma_parsing(expanded(pattern), glob);
        patterns_stand_for_their_globs(pattern, glob);
        assert(texts(patterns)[i] == patterns[i]@);
        lemma_globs_of(texts(patterns), root, glob);
        let k = globs.index_of(glob);
        assert(glob_matches(globs[k], path));
    }
}

/// A file is looked up by its path relative to the root, and by its path as it is where it does
/// not lie below the root; a location by the path of its URI, and kept where that names none.
pub proof fn files_and_locations_are_looked_up(
    matcher: IgnoreMatcher,
    path: Seq<char>,
    file: String,
    location: Location,
)
    ensures
        matcher.excludes(path) == matcher.excludes_bytes(encode_utf8(path)),
        relative_to(path, matcher.root@) matches Some(rel) ==> matcher.excludes_path(path)
            == matcher.excludes(rel),
        relative_to(path, matcher.root@) is None ==> matcher.excludes_path(path)
            == matcher.excludes(path),
        (matcher.keeps_file())(file) == !matcher.excludes_path(file@),
        uri_file_path(url_text(location.uri)) is None ==> (matcher.keeps())(location),
        uri_file_path(url_text(location.uri)) matches Some(bytes) ==> (matcher.keeps())(location)
            == !matcher.excludes_bytes(relative_bytes(bytes, matcher.root@)),
{
}

} // verus!
