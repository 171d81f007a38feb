//! What holds of the search for declarations, implementors and words.
use vstd::prelude::*;

use super::find::{
    definition_query, implementor_line, implementors_query, implements, located, lower_case,
    root_or, tells_type, word_query, TYPE_KEYWORDS,
};
use super::ignore::IgnoreMatcher;
use super::pattern::{
    declaration_pattern, direct_import_pattern, escaped, mention_pattern, package_import_pattern,
    package_pattern, qualified_pattern,
};
use super::references::kept_location;
use super::search::{HitView, SearchView};
use super::search_laws::{
    asks_for_each, commands_say_what_to_search, commands_say_where_to_search, is_pair, options_of,
};
use crate::chars::word_char;
use crate::path::joined;
use crate::text::trim;
use crate::text_laws::held_texts;
use crate::types::LocationView;

verus! {

/// Running the search for this one pattern looks in exactly those of the source paths that
/// exist, each taken from the root; and below the root where there are no source paths or none
/// of them exists.
pub open spec fn searches_the_source_paths(
    search: SearchView,
    pattern: Seq<char>,
    words: bool,
    root: Seq<char>,
    source_paths: Seq<Seq<char>>,
    is_dir: Seq<bool>,
) -> bool {
    &&& search.parse_root == root
    &&& search.candidates().len() == source_paths.len()
    &&& forall|i: int|
        0 <= i < source_paths.len() ==> #[trigger] search.candidates()[i] == joined(
            root,
            source_paths[i],
        )
    &&& exists|dirs: Seq<Seq<char>>|
        #![trigger options_of(false, words).push("-e"@).push(pattern) + dirs]
        search.args(is_dir) == options_of(false, words).push("-e"@).push(pattern) + dirs && if (
        exists|i: int| 0 <= i < is_dir.len() && #[trigger] is_dir[i]) {
            forall|d: Seq<char>| #[trigger]
                dirs.contains(d) <==> exists|i: int|
                    0 <= i < is_dir.len() && #[trigger] is_dir[i] && d == joined(
                        root,
                        source_paths[i],
                    )
        } else {
            dirs == seq![root]
        }
}

proof fn lemma_searches_the_source_paths(
    search: SearchView,
    pattern: Seq<char>,
    words: bool,
    root: Seq<char>,
    source_paths: Seq<Seq<char>>,
    is_dir: Seq<bool>,
)
    requires
        is_dir.len() == source_paths.len(),
        search.parse_root == root,
        search.target == (if source_paths.len() == 0 {
            super::search::TargetView::Root(root)
        } else {
            super::search::TargetView::SourcePaths(source_paths)
        }),
        search.patterns == seq![pattern],
        search.word_regexp == words,
        !search.list_files,
    ensures
        searches_the_source_paths(search, pattern, words, root, source_paths, is_dir),
{
    commands_say_what_to_search(search, is_dir);
    commands_say_where_to_search(root, source_paths, Seq::empty(), search, is_dir);
    let dirs = search.target_args(super::search::flag_set(search.candidates(), is_dir));
    let asked = choose|asked: Seq<Seq<char>>| #[trigger]
        asks_for_each(asked, search.patterns) && search.args(is_dir) == options_of(
            search.list_files,
            search.word_regexp,
        ) + asked + dirs;
    assert(is_pair(asked, 0, "-e"@, search.patterns[0]));
    assert(asked =~= seq!["-e"@, pattern]);
    assert(search.args(is_dir) =~= options_of(false, words).push("-e"@).push(pattern) + dirs);
}

/// The declarations of a name are searched with the pattern of its declarations, its
/// implementors with the name itself, and its occurrences as a whole word; all of them in the
/// source paths that exist, and below the root only where there are none.
pub proof fn names_are_searched_in_the_source_paths(
    name: Seq<char>,
    root: Seq<char>,
    source_paths: Seq<Seq<char>>,
    is_dir: Seq<bool>,
)
    requires
        is_dir.len() == source_paths.len(),
    ensures
        searches_the_source_paths(
            definition_query(name, root, source_paths),
            declaration_pattern(name),
            false,
            root,
            source_paths,
            is_dir,
        ),
        searches_the_source_paths(
            implementors_query(name, root, source_paths),
            name,
            false,
            root,
            source_paths,
            is_dir,
        ),
        searches_the_source_paths(
            word_query(name, root, source_paths),
            escaped(name),
            true,
            root,
            source_paths,
            is_dir,
        ),
{
    let d = definition_query(name, root, source_paths);
    assert(d.patterns =~= seq![declaration_pattern(name)]);
    lemma_searches_the_source_paths(
        d,
        declaration_pattern(name),
        false,
        root,
        source_paths,
        is_dir,
    );
    let i = implementors_query(name, root, source_paths);
    assert(i.patterns =~= seq![name]);
    lemma_searches_the_source_paths(i, name, false, root, source_paths, is_dir);
    let w = word_query(name, root, source_paths);
    assert(w.patterns =~= seq![escaped(name)]);
    lemma_searches_the_source_paths(w, escaped(name), true, root, source_paths, is_dir);
}

/// Declarations are searched from the given root, and from the working directory without one.
pub proof fn declarations_are_searched_from_the_root(root: &str, cwd: &str)
    ensures
        root_or(Some(root), cwd) == root@,
        root_or(None, cwd) == cwd@,
{
}

/// The text holds the other one.
pub open spec fn holds(s: Seq<char>, p: Seq<char>) -> bool {
    exists|a: Seq<char>, b: Seq<char>| s == #[trigger] (a + p + b)
}

/// The text holds a word that begins the declaration of a type.
pub open spec fn holds_type_word(s: Seq<char>) -> bool {
    holds(s, "class "@) || holds(s, "struct "@) || holds(s, "interface"@) || holds(s, "enum"@)
        || holds(s, "extension "@)
}

/// A line looks like that of an implementor exactly where, trimmed, it holds the name and, in
/// lower case, one of the words `class `, `struct `, `interface`, `enum` and `extension `.
pub proof fn implementor_lines_hold_a_type_word_and_the_name(content: Seq<char>, name: Seq<char>)
    ensures
        implementor_line(content, name) <==> holds_type_word(lower_case(trim(content))) && holds(
            trim(content),
            name,
        ),
{
    let lower = lower_case(trim(content));
    held_texts(trim(content), name);
    held_texts(lower, "class "@);
    held_texts(lower, "struct "@);
    held_texts(lower, "interface"@);
    held_texts(lower, "enum"@);
    held_texts(lower, "extension "@);
    assert(TYPE_KEYWORDS@[0]@ == "class "@);
    assert(TYPE_KEYWORDS@[1]@ == "struct "@);
    assert(TYPE_KEYWORDS@[2]@ == "interface"@);
    assert(TYPE_KEYWORDS@[3]@ == "enum"@);
    assert(TYPE_KEYWORDS@[4]@ == "extension "@);
    assert(tells_type(lower) <==> holds_type_word(lower));
}

/// What a filter keeps.
pub proof fn lemma_filter_has<A>(s: Seq<A>, p: spec_fn(A) -> bool, x: A)
    ensures
        s.filter(p).contains(x) <==> s.contains(x) && p(x),
{
    if s.filter(p).contains(x) {
        let i = s.filter(p).index_of(x);
        s.lemma_filter_pred(p, i);
        s.lemma_filter_contains_rev(p, x);
    }
    if s.contains(x) && p(x) {
        let i = s.index_of(x);
        s.lemma_filter_contains(p, i);
    }
}

/// Where the hits are: one place for each, in their order.
pub proof fn hits_are_located(hits: Seq<HitView>)
    ensures
        located(hits).len() == hits.len(),
        forall|i: int| 0 <= i < hits.len() ==> #[trigger] located(hits)[i] == hits[i].location,
{
}

/// The declarations that are found are the places of all hits but those in excluded files.
pub proof fn declarations_are_all_hits_kept(
    hits: Seq<HitView>,
    matcher: Option<&IgnoreMatcher>,
    l: LocationView,
)
    ensures
        located(hits).filter(kept_location(matcher)).contains(l) <==> (exists|i: int|
            0 <= i < hits.len() && (#[trigger] hits[i]).location == l) && (matcher matches Some(m)
            ==> m.keeps_uri(l.uri)),
        matcher is None ==> located(hits).filter(kept_location(matcher)) == located(hits),
{
    lemma_filter_has(located(hits), kept_location(matcher), l);
    if located(hits).contains(l) {
        let i = located(hits).index_of(l);
        assert(hits[i].location == l);
    }
    if exists|i: int| 0 <= i < hits.len() && (#[trigger] hits[i]).location == l {
        let i = choose|i: int| 0 <= i < hits.len() && (#[trigger] hits[i]).location == l;
        assert(located(hits)[i] == l);
    }
    if matcher is None {
        lemma_filter_all(located(hits), kept_location(matcher));
    }
}

proof fn lemma_filter_all<A>(s: Seq<A>, p: spec_fn(A) -> bool)
    requires
        forall|x: A| #[trigger] p(x),
    ensures
        s.filter(p) == s,
    decreases s.len(),
{
    reveal(Seq::filter);
    if s.len() > 0 {
        lemma_filter_all(s.drop_last(), p);
        assert(p(s.last()));
        assert(s =~= s.drop_last().push(s.last()));
    }
}

/// Every hit whose trimmed line holds the name and, in lower case, one of the words `class `,
/// `struct `, `interface`, `enum` and `extension `, and whose file is not excluded, is among the
/// implementors; and no other place is.
pub proof fn implementors_are_found(
    hits: Seq<HitView>,
    name: Seq<char>,
    matcher: Option<&IgnoreMatcher>,
    l: LocationView,
)
    ensures
        located(hits.filter(implements(name))).filter(kept_location(matcher)).contains(l) <==> (
        exists|i: int|
            0 <= i < hits.len() && (#[trigger] hits[i]).location == l && holds(
                trim(hits[i].content),
                name,
            ) && (holds(lower_case(trim(hits[i].content)), "class "@) || holds(
                lower_case(trim(hits[i].content)),
                "struct "@,
            ) || holds(lower_case(trim(hits[i].content)), "interface"@) || holds(
                lower_case(trim(hits[i].content)),
                "enum"@,
            ) || holds(lower_case(trim(hits[i].content)), "extension "@))) && (matcher matches Some(
            m,
        ) ==> m.keeps_uri(l.uri)),
{
    let lines = hits.filter(implements(name));
    declarations_are_all_hits_kept(lines, matcher, l);
    if exists|i: int| 0 <= i < lines.len() && (#[trigger] lines[i]).location == l {
        let i = choose|i: int| 0 <= i < lines.len() && (#[trigger] lines[i]).location == l;
        let h = lines[i];
        assert(lines.contains(h));
        lemma_filter_has(hits, implements(name), h);
        implementor_lines_hold_a_type_word_and_the_name(h.content, name);
        let k = hits.index_of(h);
        assert(hits[k].location == l);
    }
    assert forall|i: int|
        0 <= i < hits.len() && (#[trigger] hits[i]).location == l && holds(
            trim(hits[i].content),
            name,
        ) && holds_type_word(lower_case(trim(hits[i].content))) implies exists|k: int|
        0 <= k < lines.len() && (#[trigger] lines[k]).location == l by {
        let h = hits[i];
        implementor_lines_hold_a_type_word_and_the_name(h.content, name);
        assert(hits.contains(h));
        lemma_filter_has(hits, implements(name), h);
        let k = lines.index_of(h);
        assert(lines[k].location == l);
    }
}

/// Implementors keep the order of the hits: those of two outputs one after the other are those
/// of the first and then those of the second.
pub proof fn implementors_keep_the_order_of_the_hits(
    first: Seq<HitView>,
    second: Seq<HitView>,
    name: Seq<char>,
)
    ensures
        located((first + second).filter(implements(name))) == located(
            first.filter(implements(name)),
        ) + located(second.filter(implements(name))),
{
    Seq::filter_distributes_over_add(first, second, implements(name));
    assert(located((first + second).filter(implements(name))) =~= located(
        first.filter(implements(name)),
    ) + located(second.filter(implements(name))));
}

proof fn lemma_escaped_push(s: Seq<char>, c: char)
    ensures
        escaped(s.push(c)) == escaped(s) + (if word_char(c) {
            seq![c]
        } else {
            seq!['\\', c]
        }),
{
    assert(s.push(c).drop_last() =~= s);
}

/// Text is escaped character by character: letters, digits and `_` stand for themselves, every
/// other character gets a backslash.
pub proof fn text_is_escaped_character_by_character(s: Seq<char>, c: char)
    ensures
        escaped(Seq::empty()).len() == 0,
        word_char(c) ==> escaped(s.push(c)) == escaped(s).push(c),
        !word_char(c) ==> escaped(s.push(c)) == escaped(s).push('\\').push(c),
{
    lemma_escaped_push(s, c);
    if word_char(c) {
        assert(escaped(s) + seq![c] =~= escaped(s).push(c));
    } else {
        assert(escaped(s) + seq!['\\', c] =~= escaped(s).push('\\').push(c));
    }
}

/// The patterns, written out: a declaration keyword of Kotlin, Java or Swift and the name; the
/// name behind its class; an import of it, or of everything, from its class or its package; the
/// declaration of the package; and a word on its own.
pub proof fn patterns_read_like_this(
    name: Seq<char>,
    parent: Seq<char>,
    package: Seq<char>,
    word: Seq<char>,
)
    ensures
        declaration_pattern(name)
            == r"(?:(?:class|struct|interface|object|protocol|fun|func|val|var|let|typealias|enum\s+class)\s+|fun\s+\w[\w.]*\.|(?:public|private|protected|fileprivate|open|internal|static|abstract|final|\s)+(?:enum|class|struct|protocol)\s+|extension\s+)"@
            + escaped(name) + r"\b"@,
        qualified_pattern(parent, name) == r"\b"@ + escaped(parent) + r"\.\b"@ + escaped(name)
            + r"\b"@,
        direct_import_pattern(parent, name) == r"import[^\n]*\b"@ + escaped(parent) + r"\.(?:"@
            + escaped(name) + r"\b|\*)"@,
        package_import_pattern(package, name) == r"import[^\n]*\b"@ + escaped(package)
            + r"\b[^\n]*\b"@ + escaped(name) + r"\b|import[^\n]*\b"@ + escaped(package)
            + r"\b\.\*"@,
        package_pattern(package) == r"^\s*package\s+"@ + escaped(package) + r"\s*$"@,
        mention_pattern(word) == r"\b"@ + escaped(word) + r"\b"@,
{
}

/// Running the search for declarations: its arguments say to print every match with its file,
/// line and column, to search Kotlin, Java and Swift files, and what to look for; and then come
/// exactly those of the source paths that exist, each taken from the root, or the root itself
/// where there are no source paths or none of them exists.
pub proof fn declaration_searches_run_like_this(
    name: Seq<char>,
    root: Seq<char>,
    source_paths: Seq<Seq<char>>,
    is_dir: Seq<bool>,
)
    requires
        is_dir.len() == source_paths.len(),
    ensures
        ({
            let args = definition_query(name, root, source_paths).args(is_dir);
            &&& args.len() > 12
            &&& args.take(12) == seq![
                "--no-heading"@,
                "--with-filename"@,
                "--line-number"@,
                "--column"@,
                "--glob"@,
                "*.kt"@,
                "--glob"@,
                "*.java"@,
                "--glob"@,
                "*.swift"@,
                "-e"@,
                declaration_pattern(name),
            ]
            &&& (exists|i: int| 0 <= i < is_dir.len() && #[trigger] is_dir[i]) ==> forall|
                d: Seq<char>,
            | #[trigger]
                args.skip(12).contains(d) <==> exists|i: int|
                    0 <= i < is_dir.len() && #[trigger] is_dir[i] && d == joined(
                        root,
                        source_paths[i],
                    )
            &&& (forall|i: int| 0 <= i < is_dir.len() ==> !#[trigger] is_dir[i]) ==> args.skip(12)
                == seq![root]
        }),
        definition_query(name, root, source_paths).parse_root == root,
        definition_query(name, root, source_paths).candidates().len() == source_paths.len(),
        forall|i: int|
            0 <= i < source_paths.len() ==> #[trigger] definition_query(
                name,
                root,
                source_paths,
            ).candidates()[i] == joined(root, source_paths[i]),
{
    let pattern = declaration_pattern(name);
    let q = definition_query(name, root, source_paths);
    let args = q.args(is_dir);
    names_are_searched_in_the_source_paths(name, root, source_paths, is_dir);
    let head = options_of(false, false).push("-e"@).push(pattern);
    let dirs = choose|dirs: Seq<Seq<char>>|
        #![trigger options_of(false, false).push("-e"@).push(pattern) + dirs]
        args == options_of(false, false).push("-e"@).push(pattern) + dirs && if (exists|i: int|
            0 <= i < is_dir.len() && #[trigger] is_dir[i]) {
            forall|d: Seq<char>| #[trigger]
                dirs.contains(d) <==> exists|i: int|
                    0 <= i < is_dir.len() && #[trigger] is_dir[i] && d == joined(
                        root,
                        source_paths[i],
                    )
        } else {
            dirs == seq![root]
        };
    assert(head.len() == 12);
    assert(args.skip(12) =~= dirs);
    assert(args.take(12) =~= head);
    assert(head =~= seq![
        "--no-heading"@,
        "--with-filename"@,
        "--line-number"@,
        "--column"@,
        "--glob"@,
        "*.kt"@,
        "--glob"@,
        "*.java"@,
        "--glob"@,
        "*.swift"@,
        "-e"@,
        pattern,
    ]);
    if exists|i: int| 0 <= i < is_dir.len() && #[trigger] is_dir[i] {
        let i = choose|i: int| 0 <= i < is_dir.len() && #[trigger] is_dir[i];
        assert(dirs.contains(joined(root, source_paths[i])));
    }
}

/// The search for implementors and that for a word look where the search for declarations
/// looks: in every one of them what follows the pattern on the command line is the same.
pub proof fn all_searches_look_in_the_same_places(
    name: Seq<char>,
    root: Seq<char>,
    source_paths: Seq<Seq<char>>,
    is_dir: Seq<bool>,
)
    ensures
        ({
            let declarations = definition_query(name, root, source_paths);
            let implementors = implementors_query(name, root, source_paths);
            let words = word_query(name, root, source_paths);
            &&& implementors.target == declarations.target && words.target == declarations.target
            &&& implementors.parse_root == root && words.parse_root == root
            &&& implementors.candidates() == declarations.candidates()
            &&& words.candidates() == declarations.candidates()
            &&& implementors.patterns == seq![name]
            &&& words.patterns == seq![escaped(name)]
            &&& words.word_regexp && !implementors.word_regexp && !declarations.word_regexp
            &&& !words.list_files && !implementors.list_files && !declarations.list_files
        }),
{
    assert(implementors_query(name, root, source_paths).patterns =~= seq![name]);
    assert(word_query(name, root, source_paths).patterns =~= seq![escaped(name)]);
}

} // verus!
