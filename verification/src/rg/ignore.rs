//! Workspace ignore patterns.
use std::sync::Arc;

use vstd::prelude::*;
use vstd::utf8::encode_utf8;

use crate::path::{
    absolute, is_absolute, join_then_strip, joined, plain_relative, relative_or_self, relative_to,
    relativize, strip_prefix,
};
use crate::raw_path::{relative_bytes, relative_bytes_of_text, relativize_bytes};
use crate::text::{
    chars_of, find_char, lemma_trailing, slice_of, string_of, texts, trailing,
};
use crate::types::Location;
use crate::uri::{path_from_uri, uri_file_path};

verus! {

/// A glob of `globset`.
#[verifier::external_type_specification]
#[verifier::external_body]
pub struct ExGlob(globset::Glob);

/// A growing list of globs of `globset`.
#[verifier::external_type_specification]
#[verifier::external_body]
pub struct ExGlobSetBuilder(globset::GlobSetBuilder);

/// A compiled set of globs of `globset`.
#[verifier::external_type_specification]
#[verifier::external_body]
pub struct ExGlobSet(globset::GlobSet);

/// An error of `globset`.
#[verifier::external_type_specification]
#[verifier::external_body]
pub struct ExGlobError(globset::Error);

/// The pattern that a glob was made from.
pub uninterp spec fn glob_text(glob: globset::Glob) -> Seq<char>;

/// The patterns added to a builder, in order.
pub uninterp spec fn builder_globs(builder: globset::GlobSetBuilder) -> Seq<Seq<char>>;

/// The patterns of a compiled set, in order.
pub uninterp spec fn set_globs(set: globset::GlobSet) -> Seq<Seq<char>>;

/// Whether `globset` takes the text as a glob.
pub uninterp spec fn glob_parses(pattern: Seq<char>) -> bool;

/// Whether `globset` compiles these globs into one set.
pub uninterp spec fn globs_compile(patterns: Seq<Seq<char>>) -> bool;

/// Whether the glob matches the path, by the rules of `globset`.
pub uninterp spec fn glob_matches(pattern: Seq<char>, path: Seq<u8>) -> bool;

/// One of the globs matches the path.
pub open spec fn any_matches(globs: Seq<Seq<char>>, path: Seq<u8>) -> bool {
    exists|i: int| 0 <= i < globs.len() && glob_matches(#[trigger] globs[i], path)
}

/// `globset::Glob::new`: whether it succeeds depends on the text alone, and the glob keeps
/// the text it was made from.
#[verifier::external_body]
fn new_glob(pattern: &str) -> (r: Result<globset::Glob, globset::Error>)
    ensures
        r is Ok == glob_parses(pattern@),
        r matches Ok(g) ==> glob_text(g) == pattern@,
{
    globset::Glob::new(pattern)
}

/// `globset::GlobSetBuilder::new`: a builder that holds no glob.
#[verifier::external_body]
fn new_builder() -> (b: globset::GlobSetBuilder)
    ensures
        builder_globs(b) == Seq::<Seq<char>>::empty(),
{
    globset::GlobSetBuilder::new()
}

/// `globset::GlobSetBuilder::add`: the glob comes after those already there.
#[verifier::external_body]
fn add_glob(builder: &mut globset::GlobSetBuilder, glob: globset::Glob)
    ensures
        builder_globs(*final(builder)) == builder_globs(*old(builder)).push(glob_text(glob)),
{
    builder.add(glob);
}

/// `globset::GlobSetBuilder::build`: whether it succeeds depends on the globs alone, no globs
/// always compile, and the set holds the globs of the builder.
#[verifier::external_body]
fn build_set(builder: &globset::GlobSetBuilder) -> (r: Result<globset::GlobSet, globset::Error>)
    ensures
        r is Ok == globs_compile(builder_globs(*builder)),
        builder_globs(*builder).len() == 0 ==> r is Ok,
        r matches Ok(set) ==> set_globs(set) == builder_globs(*builder),
{
    builder.build()
}

/// `globset::GlobSet::is_match_candidate` on `globset::Candidate::from_bytes`: whether any glob
/// of the set matches the path of these bytes.
#[verifier::external_body]
fn set_matches(set: &globset::GlobSet, path: &[u8]) -> (r: bool)
    ensures
        r == (exists|i: int|
            0 <= i < set_globs(*set).len() && glob_matches(#[trigger] set_globs(*set)[i], path@)),
{
    set.is_match_candidate(&globset::Candidate::from_bytes(path))
}

/// The pattern as matched against paths below the root: an absolute pattern is taken relative
/// to the root, and none is left of one outside it.
pub open spec fn normalized(pattern: Seq<char>, root: Seq<char>) -> Option<Seq<char>> {
    if absolute(pattern) {
        relative_to(pattern, root)
    } else {
        Some(pattern)
    }
}

/// Being a slash.
pub open spec fn slashes() -> spec_fn(char) -> bool {
    |c: char| c == '/'
}

/// The pattern without the slashes at its end.
pub open spec fn without_end_slashes(pattern: Seq<char>) -> Seq<char> {
    pattern.take(pattern.len() - trailing(pattern, slashes()))
}

/// The globs that a normalized pattern stands for: a bare name matches at any depth, a pattern
/// with a `/` from the root; either matches the entry itself and everything inside it.
pub open spec fn expanded(pattern: Seq<char>) -> Seq<Seq<char>> {
    if pattern.contains('/') {
        seq![pattern, without_end_slashes(pattern) + "/**"@]
    } else {
        seq![
            "**/"@ + pattern,
            "**/"@ + pattern + "/"@,
            "**/"@ + pattern + "/**"@,
        ]
    }
}

/// Those of the globs that `globset` takes.
pub open spec fn parsing(globs: Seq<Seq<char>>) -> Seq<Seq<char>> {
    globs.filter(|g: Seq<char>| glob_parses(g))
}

/// The globs of one pattern.
pub open spec fn globs_of_pattern(pattern: Seq<char>, root: Seq<char>) -> Seq<Seq<char>> {
    match normalized(pattern, root) {
        Some(n) => parsing(expanded(n)),
        None => Seq::empty(),
    }
}

/// The globs of all patterns, in order.
pub open spec fn globs_of(patterns: Seq<Seq<char>>, root: Seq<char>) -> Seq<Seq<char>>
    decreases patterns.len(),
{
    if patterns.len() == 0 {
        Seq::empty()
    } else {
        globs_of(patterns.drop_last(), root) + globs_of_pattern(patterns.last(), root)
    }
}

/// Compiled workspace ignore patterns.
///
/// A bare pattern with no `/` (e.g. `bazel-*`) matches at any depth; one with a `/`
/// (e.g. `build/**`) matches relative to the workspace root; an absolute path under the
/// root is normalized to a relative one. What lies inside a matched directory is matched too.
pub struct IgnoreMatcher {
    /// The patterns as the client gave them.
    pub patterns: Vec<String>,
    /// The compiled globs.
    pub glob_set: Arc<globset::GlobSet>,
    /// The workspace root the matcher was built for.
    pub root: String,
}

/// Adds the glob to the builder, where `globset` takes it.
fn add_if_parses(builder: &mut globset::GlobSetBuilder, pattern: &str)
    ensures
        builder_globs(*final(builder)) == builder_globs(*old(builder)) + parsing(seq![pattern@]),
{
    proof {
        reveal_with_fuel(Seq::filter, 2);
        assert(seq![pattern@].drop_last() =~= Seq::<Seq<char>>::empty());
    }
    match new_glob(pattern) {
        Ok(glob) => {
            add_glob(builder, glob);
            assert(parsing(seq![pattern@]) =~= seq![pattern@]);
        },
        Err(_) => {
            assert(parsing(seq![pattern@]) =~= Seq::<Seq<char>>::empty());
        },
    }
    assert(builder_globs(*builder) =~= builder_globs(*old(builder)) + parsing(seq![pattern@]));
}

/// The pattern without the slashes at its end.
fn trimmed_slashes(pattern: &[char]) -> (r: String)
    ensures
        r@ == without_end_slashes(pattern@),
{
    let mut n: usize = pattern.len();
    while n > 0 && pattern[n - 1] == '/'
        invariant
            n <= pattern@.len(),
            forall|i: int| n <= i < pattern@.len() ==> (slashes())(#[trigger] pattern@[i]),
        decreases n,
    {
        n -= 1;
    }
    proof {
        lemma_trailing(pattern@, slashes(), pattern@.len() - n);
    }
    let head = slice_of(pattern, 0, n);
    assert(head@ =~= without_end_slashes(pattern@));
    string_of(head.as_slice())
}

/// What `globset` takes of two lists is what it takes of each.
proof fn lemma_parsing_concat(a: Seq<Seq<char>>, b: Seq<Seq<char>>)
    ensures
        parsing(a + b) == parsing(a) + parsing(b),
    decreases b.len(),
{
    reveal(Seq::filter);
    if b.len() == 0 {
        assert(a + b =~= a);
        assert(parsing(a) + parsing(b) =~= parsing(a));
    } else {
        lemma_parsing_concat(a, b.drop_last());
        assert((a + b).drop_last() =~= a + b.drop_last());
        assert(parsing(a + b) =~= parsing(a) + parsing(b));
    }
}

impl IgnoreMatcher {
    /// The globs that exclude a path.
    pub open spec fn globs(&self) -> Seq<Seq<char>> {
        set_globs(*self.glob_set)
    }

    /// The patterns as the client gave them.
    pub open spec fn client_patterns(&self) -> Seq<String> {
        self.patterns@
    }

    /// The workspace root the matcher was built for.
    pub open spec fn workspace_root(&self) -> Seq<char> {
        self.root@
    }

    /// The matcher of these patterns against this root.
    pub open spec fn built_from(&self, patterns: Seq<String>, root: Seq<char>) -> bool {
        &&& self.client_patterns() == patterns
        &&& self.workspace_root() == root
        &&& self.globs() == (if globs_compile(globs_of(texts(patterns), root)) {
            globs_of(texts(patterns), root)
        } else {
            Seq::empty()
        })
    }

    /// The path of these bytes, relative to the root, is excluded.
    pub open spec fn excludes_bytes(&self, rel: Seq<u8>) -> bool {
        any_matches(self.globs(), rel)
    }

    /// The path, relative to the root, is excluded.
    pub open spec fn excludes(&self, rel: Seq<char>) -> bool {
        self.excludes_bytes(encode_utf8(rel))
    }

    /// The path, taken relative to the root where it lies below it, is excluded.
    pub open spec fn excludes_path(&self, path: Seq<char>) -> bool {
        self.excludes(relative_or_self(path, self.workspace_root()))
    }

    /// The path of these bytes, taken relative to the root where it lies below it, is excluded.
    pub open spec fn excludes_raw_path(&self, path: Seq<u8>) -> bool {
        self.excludes_bytes(relative_bytes(path, self.workspace_root()))
    }

    /// The location is in no excluded file; a URI that names no path is kept.
    pub open spec fn keeps_uri(&self, uri: Seq<char>) -> bool {
        match uri_file_path(uri) {
            Some(path) => !self.excludes_raw_path(path),
            None => true,
        }
    }

    /// Keeping the locations in no excluded file.
    pub open spec fn keeps(self) -> spec_fn(Location) -> bool {
        |loc: Location| self.keeps_uri(loc@.uri)
    }

    /// Keeping the files that are not excluded.
    pub open spec fn keeps_file(self) -> spec_fn(String) -> bool {
        |file: String| !self.excludes_path(file@)
    }

    /// Builds the matcher of the client's patterns against `root`.
    ///
    /// A pattern outside the root and one that is no glob exclude nothing; so do all of them
    /// where they do not compile together.
    pub fn new(patterns: Vec<String>, root: &str) -> (r: Self)
        ensures
            r.built_from(patterns@, root@),
    {
        let mut builder = new_builder();
        let ghost all = texts(patterns@);
        assert(all.take(0) =~= Seq::<Seq<char>>::empty());
        for i in 0..patterns.len()
            invariant
                all == texts(patterns@),
                builder_globs(builder) == globs_of(all.take(i as int), root@),
        {
            let pat = patterns[i].as_str();
            assert(pat@ == all[i as int]);
            assert(all.take(i + 1).drop_last() =~= all.take(i as int));
            let ghost before = builder_globs(builder);
            let kept = if is_absolute(pat) {
                strip_prefix(pat, root)
            } else {
                Some(pat.to_owned())
            };
            match kept {
                Some(n) => {
                    assert(normalized(pat@, root@) == Some(n@));
                    let v = chars_of(n.as_str());
                    if find_char(v.as_slice(), '/') < v.len() {
                        assert(n@.contains('/'));
                        let mut inside = trimmed_slashes(v.as_slice());
                        inside.append("/**");
                        add_if_parses(&mut builder, n.as_str());
                        add_if_parses(&mut builder, inside.as_str());
                        proof {
                            lemma_parsing_concat(seq![n@], seq![inside@]);
                            assert(seq![n@] + seq![inside@] =~= expanded(n@));
                        }
                    } else {
                        assert(!n@.contains('/'));
                        let mut entry = "**/".to_owned();
                        entry.append(n.as_str());
                        let mut dir = entry.clone();
                        dir.append("/");
                        let mut inside = entry.clone();
                        inside.append("/**");
                        add_if_parses(&mut builder, entry.as_str());
                        add_if_parses(&mut builder, dir.as_str());
                        add_if_parses(&mut builder, inside.as_str());
                        proof {
                            lemma_parsing_concat(seq![entry@], seq![dir@]);
                            lemma_parsing_concat(seq![entry@] + seq![dir@], seq![inside@]);
                            assert(seq![entry@] + seq![dir@] + seq![inside@] =~= expanded(n@));
                        }
                    }
                    assert(builder_globs(builder) =~= before + parsing(expanded(n@)));
                },
                None => {
                    assert(before + globs_of_pattern(pat@, root@) =~= before);
                },
            }
        }
        assert(all.take(all.len() as int) =~= all);
        let glob_set = match build_set(&builder) {
            Ok(set) => set,
            Err(_) => {
                let empty = new_builder();
                build_set(&empty).unwrap()
            },
        };
        IgnoreMatcher { patterns, glob_set: Arc::new(glob_set), root: root.to_owned() }
    }

    /// Whether the client gave no patterns.
    pub fn is_empty(&self) -> (r: bool)
        ensures
            r == (self.client_patterns().len() == 0),
    {
        self.patterns.len() == 0
    }

    /// Whether `rel_path`, relative to the workspace root, is excluded.
    pub fn matches(&self, rel_path: &str) -> (r: bool)
        ensures
            r == self.excludes(rel_path@),
    {
        set_matches(&self.glob_set, rel_path.as_bytes())
    }

    /// The compiled globs, shared.
    pub fn glob_set(&self) -> (r: Arc<globset::GlobSet>)
        ensures
            set_globs(*r) == self.globs(),
    {
        Arc::clone(&self.glob_set)
    }

    /// Drops the locations in excluded files.
    pub fn filter_locs(&self, locs: Vec<Location>) -> (r: Vec<Location>)
        ensures
            r@ == locs@.filter(self.keeps()),
    {
        let mut out: Vec<Location> = Vec::new();
        for loc in it: locs
            invariant
                it.seq() == locs@,
                out@ == locs@.take(it.index() as int).filter(self.keeps()),
        {
            let ghost done = locs@.take(it.index() as int);
            proof {
                reveal(Seq::filter);
                assert(locs@.take(it.index() as int + 1) =~= done.push(loc));
                assert(done.push(loc).drop_last() =~= done);
            }
            let keep = match path_from_uri(&loc.uri) {
                Some(path) => !set_matches(
                    &self.glob_set,
                    relativize_bytes(path.as_slice(), self.root.as_str()).as_slice(),
                ),
                None => true,
            };
            if keep {
                out.push(loc);
            }
        }
        assert(locs@.take(locs@.len() as int) =~= locs@);
        out
    }

    /// Drops the files (absolute paths) that are excluded.
    pub fn filter_file_strings(&self, files: Vec<String>) -> (r: Vec<String>)
        ensures
            r@ == files@.filter(self.keeps_file()),
    {
        let mut out: Vec<String> = Vec::new();
        for file in it: files
            invariant
                it.seq() == files@,
                out@ == files@.take(it.index() as int).filter(self.keeps_file()),
        {
            let ghost done = files@.take(it.index() as int);
            proof {
                reveal(Seq::filter);
                assert(files@.take(it.index() as int + 1) =~= done.push(file));
                assert(done.push(file).drop_last() =~= done);
            }
            if !self.matches(relativize(file.as_str(), self.root.as_str()).as_str()) {
                out.push(file);
            }
        }
        assert(files@.take(files@.len() as int) =~= files@);
        out
    }

    /// Drops the paths that are excluded.
    pub fn filter_paths(&self, paths: Vec<String>) -> (r: Vec<String>)
        ensures
            r@ == paths@.filter(self.keeps_file()),
    {
        self.filter_file_strings(paths)
    }
}

/// An absolute pattern under the workspace root excludes what the same pattern relative to the
/// root does.
pub proof fn absolute_patterns_act_as_relative(root: Seq<char>, rel: Seq<char>)
    requires
        absolute(root),
        plain_relative(rel),
    ensures
        globs_of_pattern(joined(root, rel), root) == globs_of_pattern(rel, root),
{
    join_then_strip(root, rel);
}

/// A file below the workspace root is excluded exactly where its path relative to the root is.
pub proof fn files_go_by_their_relative_path(matcher: IgnoreMatcher, rel: Seq<char>)
    requires
        matcher.workspace_root().len() > 0,
        plain_relative(rel),
    ensures
        matcher.excludes_path(joined(matcher.workspace_root(), rel)) == matcher.excludes(rel),
{
    join_then_strip(matcher.workspace_root(), rel);
}

/// A URI whose path is UTF-8 is kept exactly where the file of that path is.
pub proof fn uris_go_by_their_path(matcher: IgnoreMatcher, uri: Seq<char>, path: Seq<char>)
    requires
        uri_file_path(uri) == Some(encode_utf8(path)),
    ensures
        matcher.keeps_uri(uri) == !matcher.excludes_path(path),
{
    relative_bytes_of_text(path, matcher.workspace_root());
}

/// Without a glob that `globset` takes, nothing is excluded.
pub proof fn no_globs_exclude_nothing(matcher: IgnoreMatcher, patterns: Seq<String>, root: Seq<char>)
    requires
        matcher.built_from(patterns, root),
        globs_of(texts(patterns), root).len() == 0,
    ensures
        forall|path: Seq<u8>| !#[trigger] matcher.excludes_bytes(path),
        forall|path: Seq<char>| !#[trigger] matcher.excludes(path),
{
}

/// The globs of two lists of patterns are those of each.
proof fn lemma_globs_concat(a: Seq<Seq<char>>, b: Seq<Seq<char>>, root: Seq<char>)
    ensures
        globs_of(a + b, root) == globs_of(a, root) + globs_of(b, root),
    decreases b.len(),
{
    if b.len() == 0 {
        assert(a + b =~= a);
        assert(globs_of(a, root) + globs_of(b, root) =~= globs_of(a, root));
    } else {
        lemma_globs_concat(a, b.drop_last(), root);
        assert((a + b).drop_last() =~= a + b.drop_last());
        assert(globs_of(a + b, root) =~= globs_of(a, root) + globs_of(b, root));
    }
}

/// A path is matched by one of two lists of globs where either list matches it.
proof fn lemma_any_matches_concat(a: Seq<Seq<char>>, b: Seq<Seq<char>>, path: Seq<u8>)
    ensures
        any_matches(a + b, path) == (any_matches(a, path) || any_matches(b, path)),
{
    let all = a + b;
    if any_matches(a, path) {
        let i = choose|i: int| 0 <= i < a.len() && glob_matches(#[trigger] a[i], path);
        assert(all[i] == a[i]);
    }
    if any_matches(b, path) {
        let i = choose|i: int| 0 <= i < b.len() && glob_matches(#[trigger] b[i], path);
        assert(all[a.len() + i] == b[i]);
    }
    if any_matches(all, path) {
        let i = choose|i: int| 0 <= i < all.len() && glob_matches(#[trigger] all[i], path);
        if i < a.len() {
            assert(a[i] == all[i]);
        } else {
            assert(b[i - a.len()] == all[i]);
        }
    }
}

/// The patterns compile to one set.
pub open spec fn patterns_compile(patterns: Seq<String>, root: Seq<char>) -> bool {
    globs_compile(globs_of(texts(patterns), root))
}

/// A matcher of two lists of patterns excludes what the matcher of either excludes, where the
/// lists compile alone and together.
pub proof fn matchers_unite(
    both: IgnoreMatcher,
    first: IgnoreMatcher,
    second: IgnoreMatcher,
    a: Seq<String>,
    b: Seq<String>,
    root: Seq<char>,
)
    requires
        both.built_from(a + b, root),
        first.built_from(a, root),
        second.built_from(b, root),
        patterns_compile(a, root),
        patterns_compile(b, root),
        patterns_compile(a + b, root),
    ensures
        forall|path: Seq<u8>| #[trigger]
            both.excludes_bytes(path) == (first.excludes_bytes(path) || second.excludes_bytes(
                path,
            )),
        forall|path: Seq<char>| #[trigger]
            both.excludes(path) == (first.excludes(path) || second.excludes(path)),
{
    assert(texts(a + b) =~= texts(a) + texts(b));
    lemma_globs_concat(texts(a), texts(b), root);
    assert forall|path: Seq<u8>| #[trigger] both.excludes_bytes(path) == (first.excludes_bytes(path)
        || second.excludes_bytes(path)) by {
        lemma_any_matches_concat(globs_of(texts(a), root), globs_of(texts(b), root), path);
    }
}

/// The order of two lists of patterns does not matter, where they compile in either order.
pub proof fn pattern_order_does_not_matter(
    one: IgnoreMatcher,
    other: IgnoreMatcher,
    a: Seq<String>,
    b: Seq<String>,
    root: Seq<char>,
)
    requires
        one.built_from(a + b, root),
        other.built_from(b + a, root),
        patterns_compile(a + b, root),
        patterns_compile(b + a, root),
    ensures
        forall|path: Seq<u8>| #[trigger] one.excludes_bytes(path) == other.excludes_bytes(path),
        forall|path: Seq<char>| #[trigger] one.excludes(path) == other.excludes(path),
{
    assert(texts(a + b) =~= texts(a) + texts(b));
    assert(texts(b + a) =~= texts(b) + texts(a));
    lemma_globs_concat(texts(a), texts(b), root);
    lemma_globs_concat(texts(b), texts(a), root);
    assert forall|path: Seq<u8>| #[trigger] one.excludes_bytes(path) == other.excludes_bytes(
        path,
    ) by {
        lemma_any_matches_concat(globs_of(texts(a), root), globs_of(texts(b), root), path);
        lemma_any_matches_concat(globs_of(texts(b), root), globs_of(texts(a), root), path);
    }
}

/// A matcher of no patterns excludes nothing.
pub proof fn no_patterns_exclude_nothing(matcher: IgnoreMatcher, root: Seq<char>)
    requires
        matcher.built_from(Seq::empty(), root),
    ensures
        forall|path: Seq<u8>| !#[trigger] matcher.excludes_bytes(path),
        forall|path: Seq<char>| !#[trigger] matcher.excludes(path),
{
    assert(texts(Seq::empty()) =~= Seq::<Seq<char>>::empty());
    no_globs_exclude_nothing(matcher, Seq::empty(), root);
}

} // verus!
