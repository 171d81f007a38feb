//! What holds of every run of ripgrep: its arguments, and what its output says.
use vstd::prelude::*;

use super::search::{
    canonical_at, final_path, flag_set, flagged, files_search, hit_of, hit_views, hits_of,
    joined_all, location_views, named_path, output_line_is_read_back, present, rg_fields,
    rooted_search, scoped_search, source_globs, HitView, OutputView, RgSearch, RgTarget,
    SearchView, TargetView,
};
use super::pattern::SOURCE_EXTENSIONS;
use crate::path::joined;
use crate::text::{lines, number_of, texts, trim};
use crate::text_laws::lines_come_one_after_another;
use crate::types::{Location, LocationView, Position, Range};
use crate::uri::{file_uri, url_text};

verus! {

/// A search begins with where to look and nothing to look for: below a root; in the source
/// paths, and below the root only where there are none; or in given files.
pub proof fn searches_begin_with_their_target(
    root: Seq<char>,
    source_paths: Seq<Seq<char>>,
    files: Seq<Seq<char>>,
)
    ensures
        rooted_search(root) == (SearchView {
            parse_root: root,
            target: TargetView::Root(root),
            patterns: Seq::empty(),
            word_regexp: false,
            list_files: false,
        }),
        scoped_search(source_paths, root) == (SearchView {
            parse_root: root,
            target: if source_paths.len() == 0 {
                TargetView::Root(root)
            } else {
                TargetView::SourcePaths(source_paths)
            },
            patterns: Seq::empty(),
            word_regexp: false,
            list_files: false,
        }),
        files_search(files) == (SearchView {
            parse_root: "/"@,
            target: TargetView::Files(files),
            patterns: Seq::empty(),
            word_regexp: false,
            list_files: false,
        }),
{
}

/// A pattern, whole words and the listing of files are added to a search without changing
/// anything else of it.
pub proof fn searches_are_narrowed_one_by_one(search: SearchView, pattern: Seq<char>)
    ensures
        search.with(pattern) == (SearchView { patterns: search.patterns.push(pattern), ..search }),
        search.of_words() == (SearchView { word_regexp: true, ..search }),
        search.of_files() == (SearchView { list_files: true, ..search }),
{
}

/// Arguments `2 * i` and `2 * i + 1` are the flag and the value.
pub open spec fn is_pair(args: Seq<Seq<char>>, i: int, flag: Seq<char>, value: Seq<char>) -> bool {
    args[2 * i] == flag && args[2 * i + 1] == value
}

proof fn lemma_flagged(flag: Seq<char>, values: Seq<Seq<char>>)
    ensures
        flagged(flag, values).len() == 2 * values.len(),
        forall|i: int|
            0 <= i < values.len() ==> #[trigger] is_pair(flagged(flag, values), i, flag, values[i]),
    decreases values.len(),
{
    if values.len() > 0 {
        let d = values.drop_last();
        lemma_flagged(flag, d);
        assert forall|i: int| 0 <= i < values.len() implies #[trigger] is_pair(
            flagged(flag, values),
            i,
            flag,
            values[i],
        ) by {
            if i < d.len() {
                assert(is_pair(flagged(flag, d), i, flag, d[i]));
            }
        }
    }
}

/// What a search says on the command line before its patterns: to list the files with a match,
/// or to print each match with its file, line and column; whole words alone, where asked; and
/// Kotlin, Java and Swift files alone.
pub open spec fn options_of(list_files: bool, word_regexp: bool) -> Seq<Seq<char>> {
    (if list_files {
        seq!["-l"@]
    } else {
        seq!["--no-heading"@, "--with-filename"@, "--line-number"@, "--column"@]
    }) + (if word_regexp {
        seq!["--word-regexp"@]
    } else {
        Seq::empty()
    }) + seq!["--glob"@, "*.kt"@, "--glob"@, "*.java"@, "--glob"@, "*.swift"@]
}

/// The pattern arguments of a search: each pattern behind an `-e`.
pub open spec fn asks_for_each(args: Seq<Seq<char>>, patterns: Seq<Seq<char>>) -> bool {
    &&& args.len() == 2 * patterns.len()
    &&& forall|i: int| 0 <= i < patterns.len() ==> #[trigger] is_pair(args, i, "-e"@, patterns[i])
}

proof fn lemma_globs()
    ensures
        flagged("--glob"@, source_globs()) == seq![
            "--glob"@,
            "*.kt"@,
            "--glob"@,
            "*.java"@,
            "--glob"@,
            "*.swift"@,
        ],
{
    reveal_strlit("*.");
    reveal_strlit("kt");
    reveal_strlit("java");
    reveal_strlit("swift");
    reveal_strlit("*.kt");
    reveal_strlit("*.java");
    reveal_strlit("*.swift");
    assert(SOURCE_EXTENSIONS@[0]@ == "kt"@);
    assert(SOURCE_EXTENSIONS@[1]@ == "java"@);
    assert(SOURCE_EXTENSIONS@[2]@ == "swift"@);
    assert("*."@ + "kt"@ =~= "*.kt"@);
    assert("*."@ + "java"@ =~= "*.java"@);
    assert("*."@ + "swift"@ =~= "*.swift"@);
    let g = source_globs();
    assert(g =~= seq!["*.kt"@, "*.java"@, "*.swift"@]);
    lemma_flagged("--glob"@, g);
    let f = flagged("--glob"@, g);
    assert(f.len() == 6);
    assert(g[0] == "*.kt"@ && g[1] == "*.java"@ && g[2] == "*.swift"@);
    assert(is_pair(f, 0, "--glob"@, g[0]));
    assert(is_pair(f, 1, "--glob"@, g[1]));
    assert(is_pair(f, 2, "--glob"@, g[2]));
    assert(f =~= seq!["--glob"@, "*.kt"@, "--glob"@, "*.java"@, "--glob"@, "*.swift"@]);
}

/// The command line of a search: its options, each of its patterns behind an `-e`, and where to
/// look.
pub proof fn commands_say_what_to_search(search: SearchView, is_dir: Seq<bool>)
    ensures
        exists|asked: Seq<Seq<char>>| #[trigger]
            asks_for_each(asked, search.patterns) && search.args(is_dir) == options_of(
                search.list_files,
                search.word_regexp,
            ) + asked + search.target_args(flag_set(search.candidates(), is_dir)),
{
    lemma_globs();
    lemma_flagged("-e"@, search.patterns);
    let asked = flagged("-e"@, search.patterns);
    assert(asks_for_each(asked, search.patterns));
    assert(search.args(is_dir) =~= options_of(search.list_files, search.word_regexp) + asked
        + search.target_args(flag_set(search.candidates(), is_dir)));
}

proof fn lemma_flag_set_back(paths: Seq<Seq<char>>, flags: Seq<bool>)
    ensures
        forall|i: int|
            #![trigger paths[i]]
            0 <= i < paths.len() && i < flags.len() && flags[i] ==> flag_set(paths, flags).contains(
                paths[i],
            ),
        forall|d: Seq<char>| #[trigger]
            flag_set(paths, flags).contains(d) ==> exists|i: int|
                0 <= i < paths.len() && i < flags.len() && flags[i] && #[trigger] paths[i] == d,
    decreases paths.len(),
{
    if paths.len() > 0 {
        let p = paths.drop_last();
        lemma_flag_set_back(p, flags);
        let before = flag_set(p, flags);
        let all = flag_set(paths, flags);
        let n = paths.len() - 1;
        assert forall|i: int|
            #![trigger paths[i]]
            0 <= i < paths.len() && i < flags.len() && flags[i] implies all.contains(paths[i]) by {
            if i < n {
                assert(p[i] == paths[i]);
                let k = before.index_of(paths[i]);
                assert(all[k] == paths[i]);
            } else {
                assert(all[before.len() as int] == paths[i]);
            }
        }
        assert forall|d: Seq<char>| #[trigger] all.contains(d) implies exists|i: int|
            0 <= i < paths.len() && i < flags.len() && flags[i] && #[trigger] paths[i] == d by {
            let k = all.index_of(d);
            if k < before.len() {
                assert(before[k] == d);
                assert(before.contains(d));
                let i = choose|i: int|
                    0 <= i < p.len() && i < flags.len() && flags[i] && #[trigger] p[i] == d;
                assert(paths[i] == d);
            } else {
                assert(paths[n] == d);
            }
        }
    }
}

/// Those of the paths whose flag is set are exactly those; they keep their order, and paths and
/// flags that follow add theirs behind.
pub proof fn flagged_paths(
    paths: Seq<Seq<char>>,
    flags: Seq<bool>,
    more: Seq<Seq<char>>,
    more_flags: Seq<bool>,
)
    requires
        paths.len() == flags.len(),
        more.len() == more_flags.len(),
    ensures
        forall|i: int|
            #![trigger paths[i]]
            0 <= i < paths.len() && flags[i] ==> flag_set(paths, flags).contains(paths[i]),
        forall|d: Seq<char>| #[trigger]
            flag_set(paths, flags).contains(d) ==> exists|i: int|
                0 <= i < paths.len() && flags[i] && #[trigger] paths[i] == d,
        flag_set(paths + more, flags + more_flags) == flag_set(paths, flags) + flag_set(
            more,
            more_flags,
        ),
        paths.len() == 1 ==> flag_set(paths, flags) == (if flags[0] {
            paths
        } else {
            Seq::empty()
        }),
    decreases more.len(),
{
    lemma_flag_set_back(paths, flags);
    lemma_flag_set_prefix(paths, flags, more_flags);
    if paths.len() == 1 {
        assert(paths.drop_last() =~= Seq::<Seq<char>>::empty());
        assert(flag_set(paths.drop_last(), flags) =~= Seq::<Seq<char>>::empty());
        assert(flag_set(paths, flags) =~= (if flags[0] {
            paths
        } else {
            Seq::empty()
        }));
    }
    if more.len() == 0 {
        assert(paths + more =~= paths);
        assert(flags + more_flags =~= flags);
        assert(flag_set(paths, flags) + flag_set(more, more_flags) =~= flag_set(paths, flags));
    } else {
        let m = more.drop_last();
        let mf = more_flags.drop_last();
        flagged_paths(paths, flags, m, mf);
        let all = paths + more;
        let f = flags + more_flags;
        assert(all.drop_last() =~= paths + m);
        lemma_flag_set_prefix(paths + m, flags + mf, seq![more_flags.last()]);
        assert((flags + mf) + seq![more_flags.last()] =~= f);
        lemma_flag_set_prefix(m, mf, seq![more_flags.last()]);
        assert(mf + seq![more_flags.last()] =~= more_flags);
        assert(flag_set(all.drop_last(), f) == flag_set(paths, flags) + flag_set(m, mf));
        assert(flag_set(all, f) =~= flag_set(paths, flags) + flag_set(more, more_flags));
    }
}

/// Flags without a path do not count.
proof fn lemma_flag_set_prefix(paths: Seq<Seq<char>>, flags: Seq<bool>, more: Seq<bool>)
    requires
        paths.len() <= flags.len(),
    ensures
        flag_set(paths, flags + more) == flag_set(paths, flags),
    decreases paths.len(),
{
    if paths.len() > 0 {
        lemma_flag_set_prefix(paths.drop_last(), flags, more);
        assert((flags + more)[paths.len() - 1] == flags[paths.len() - 1]);
    }
}

/// Where a search of source paths looks: in exactly those of them that exist, each taken from
/// the root; below the root where none of them does. A search of a root looks below it, one of
/// files in them alone.
pub proof fn commands_say_where_to_search(
    root: Seq<char>,
    source_paths: Seq<Seq<char>>,
    files: Seq<Seq<char>>,
    search: SearchView,
    is_dir: Seq<bool>,
)
    requires
        search.parse_root == root,
        is_dir.len() == source_paths.len(),
    ensures
        search.target == TargetView::SourcePaths(source_paths) ==> {
            let dirs = search.target_args(flag_set(search.candidates(), is_dir));
            &&& search.candidates().len() == source_paths.len()
            &&& forall|i: int|
                0 <= i < source_paths.len() ==> #[trigger] search.candidates()[i] == joined(
                    root,
                    source_paths[i],
                )
            &&& (exists|i: int| 0 <= i < is_dir.len() && #[trigger] is_dir[i]) ==> forall|
                d: Seq<char>,
            | #[trigger]
                dirs.contains(d) <==> exists|i: int|
                    0 <= i < is_dir.len() && #[trigger] is_dir[i] && d == joined(
                        root,
                        source_paths[i],
                    )
            &&& (forall|i: int| 0 <= i < is_dir.len() ==> !#[trigger] is_dir[i]) ==> dirs
                == seq![root]
        },
        search.target == TargetView::Root(root) ==> search.target_args(
            flag_set(search.candidates(), is_dir),
        ) == seq![root],
        search.target == TargetView::Files(files) ==> search.target_args(
            flag_set(search.candidates(), is_dir),
        ) == seq!["--"@] + files,
{
    if search.target == TargetView::SourcePaths(source_paths) {
        let all = search.candidates();
        let chosen = flag_set(all, is_dir);
        let dirs = search.target_args(chosen);
        assert(all == joined_all(root, source_paths));
        assert(all.len() == source_paths.len());
        lemma_flag_set_back(all, is_dir);
        if exists|i: int| 0 <= i < is_dir.len() && #[trigger] is_dir[i] {
            let i = choose|i: int| 0 <= i < is_dir.len() && #[trigger] is_dir[i];
            assert(chosen.contains(all[i]));
            assert(chosen.len() > 0);
            assert forall|d: Seq<char>| #[trigger] dirs.contains(d) <==> exists|i: int|
                0 <= i < is_dir.len() && #[trigger] is_dir[i] && d == joined(
                    root,
                    source_paths[i],
                ) by {
                if dirs.contains(d) {
                    let k = choose|k: int|
                        0 <= k < all.len() && k < is_dir.len() && is_dir[k] && #[trigger] all[k]
                            == d;
                    assert(is_dir[k] && d == joined(root, source_paths[k]));
                }
                if exists|i: int|
                    0 <= i < is_dir.len() && #[trigger] is_dir[i] && d == joined(
                        root,
                        source_paths[i],
                    ) {
                    let k = choose|k: int|
                        0 <= k < is_dir.len() && #[trigger] is_dir[k] && d == joined(
                            root,
                            source_paths[k],
                        );
                    assert(all[k] == d);
                }
            }
        }
        if forall|i: int| 0 <= i < is_dir.len() ==> !#[trigger] is_dir[i] {
            if chosen.len() > 0 {
                assert(chosen.contains(chosen[0]));
            }
        }
    }
}

/// The files of a listing are its lines, each taken from the root; a search of given files
/// lists none.
pub proof fn listings_name_a_file_in_each_line(search: SearchView, stdout: Seq<char>)
    ensures
        search.target matches TargetView::Files(_) ==> search.listed(stdout).len() == 0,
        search.target matches TargetView::Root(root) ==> search.listed(stdout).len() == lines(
            stdout,
        ).len() && forall|i: int|
            0 <= i < lines(stdout).len() ==> #[trigger] search.listed(stdout)[i] == joined(
                root,
                lines(stdout)[i],
            ),
        search.target matches TargetView::SourcePaths(_) ==> search.listed(stdout).len() == lines(
            stdout,
        ).len() && forall|i: int|
            0 <= i < lines(stdout).len() ==> #[trigger] search.listed(stdout)[i] == joined(
                search.parse_root,
                lines(stdout)[i],
            ),
{
}

/// The number counted from zero instead of one; 0 stays.
pub open spec fn one_less(n: u32) -> u32 {
    if n >= 1 {
        (n - 1) as u32
    } else {
        0
    }
}

/// A line `file:line:column:content` with an absolute file is a hit in that file, at the line
/// and the column counted from zero, with that content; the root does not matter.
pub proof fn lines_of_absolute_files_are_hits(
    file: Seq<char>,
    line: Seq<char>,
    column: Seq<char>,
    content: Seq<char>,
    root: Seq<char>,
    canonical: Option<Seq<char>>,
)
    requires
        file.len() > 0,
        file[0] == '/',
        !file.contains(':'),
        !line.contains(':'),
        !column.contains(':'),
        number_of(trim(line)) is Some,
        number_of(trim(column)) is Some,
        file_uri(file) is Some,
    ensures
        ({
            let place = Position {
                line: one_less(number_of(trim(line))->0),
                character: one_less(number_of(trim(column))->0),
            };
            hit_of(
                file.push(':') + (line.push(':') + (column.push(':') + content)),
                root,
                canonical,
            ) == Some(
                HitView {
                    location: LocationView {
                        uri: file_uri(file)->0,
                        range: Range { start: place, end: place },
                    },
                    content,
                },
            )
        }),
{
    output_line_is_read_back(file, line, column, content);
}

/// A line `file:line:column:content` with a relative file is a hit in the file taken from the
/// root, where the root is absolute.
pub proof fn lines_of_relative_files_are_hits(
    file: Seq<char>,
    line: Seq<char>,
    column: Seq<char>,
    content: Seq<char>,
    root: Seq<char>,
    canonical: Option<Seq<char>>,
)
    requires
        root.len() > 0,
        root[0] == '/',
        !file.contains(':'),
        !line.contains(':'),
        !column.contains(':'),
        number_of(trim(line)) is Some,
        number_of(trim(column)) is Some,
        file_uri(joined(root, file)) is Some,
    ensures
        ({
            let place = Position {
                line: one_less(number_of(trim(line))->0),
                character: one_less(number_of(trim(column))->0),
            };
            hit_of(
                file.push(':') + (line.push(':') + (column.push(':') + content)),
                root,
                canonical,
            ) == Some(
                HitView {
                    location: LocationView {
                        uri: file_uri(joined(root, file))->0,
                        range: Range { start: place, end: place },
                    },
                    content,
                },
            )
        }),
{
    output_line_is_read_back(file, line, column, content);
}

/// A line `file:line:column` without content is a hit as well, with no content.
pub proof fn lines_without_content_are_hits(
    file: Seq<char>,
    line: Seq<char>,
    column: Seq<char>,
    root: Seq<char>,
    canonical: Option<Seq<char>>,
)
    requires
        file.len() > 0,
        file[0] == '/',
        !file.contains(':'),
        !line.contains(':'),
        !column.contains(':'),
        number_of(trim(line)) is Some,
        number_of(trim(column)) is Some,
        file_uri(file) is Some,
    ensures
        ({
            let place = Position {
                line: one_less(number_of(trim(line))->0),
                character: one_less(number_of(trim(column))->0),
            };
            hit_of(file.push(':') + (line.push(':') + column), root, canonical) == Some(
                HitView {
                    location: LocationView {
                        uri: file_uri(file)->0,
                        range: Range { start: place, end: place },
                    },
                    content: Seq::empty(),
                },
            )
        }),
{
    super::search::lemma_first_char(file, ':', line.push(':') + column);
    super::search::lemma_first_char(line, ':', column);
    crate::text_laws::characters_are_found(column, ':');
    let k = crate::text::index_of(column, ':');
    assert(k == column.len()) by {
        if k < column.len() {
            assert(column.contains(column[k]));
        }
    }
    assert(super::search::before_char(column, ':') =~= column);
    assert(super::search::behind_char(column, ':') is None);
}

/// A line whose line or column is no number is no hit.
pub proof fn lines_without_numbers_are_no_hits(
    file: Seq<char>,
    line: Seq<char>,
    column: Seq<char>,
    content: Seq<char>,
    root: Seq<char>,
    canonical: Option<Seq<char>>,
)
    requires
        !file.contains(':'),
        !line.contains(':'),
        !column.contains(':'),
        number_of(trim(line)) is None || number_of(trim(column)) is None,
    ensures
        hit_of(
            file.push(':') + (line.push(':') + (column.push(':') + content)),
            root,
            canonical,
        ) is None,
{
    super::search::lemma_first_char(column, ':', content);
    super::search::lemma_first_char(line, ':', column.push(':') + content);
    super::search::lemma_first_char(file, ':', line.push(':') + (column.push(':') + content));
}

/// A path that is relative even when it is taken from the root stands for its canonical form,
/// where it has one.
pub proof fn relative_paths_stand_for_their_canonical_form(
    path: Seq<char>,
    canonical: Seq<char>,
)
    ensures
        path.len() > 0 && path[0] == '/' ==> final_path(path, Some(canonical)) == path,
        !(path.len() > 0 && path[0] == '/') ==> final_path(path, Some(canonical)) == canonical,
        final_path(path, None) == path,
{
}

proof fn lemma_present_front<A>(x: Option<A>, s: Seq<Option<A>>)
    ensures
        present(seq![x] + s) == (match x {
            Some(a) => seq![a],
            None => Seq::empty(),
        }) + present(s),
    decreases s.len(),
{
    let all = seq![x] + s;
    if s.len() == 0 {
        assert(all.drop_last() =~= Seq::<Option<A>>::empty());
        assert(present(all.drop_last()) =~= Seq::<A>::empty());
        assert(all.last() == x);
        assert(present(all) =~= (match x {
            Some(a) => seq![a],
            None => Seq::empty(),
        }) + present(s));
    } else {
        lemma_present_front(x, s.drop_last());
        assert(all.drop_last() =~= seq![x] + s.drop_last());
        assert(all.last() == s.last());
        assert(present(all) =~= (match x {
            Some(a) => seq![a],
            None => Seq::empty(),
        }) + present(s));
    }
}

/// The hits of an output come line by line: that of the first line, where it is one, and then
/// those of the other lines. No line is left out and none is taken twice.
pub proof fn outputs_are_read_line_by_line(
    line: Seq<char>,
    rest: Seq<char>,
    root: Seq<char>,
    canonical: Option<Seq<char>>,
    others: Seq<Option<Seq<char>>>,
)
    requires
        !line.contains('\n'),
        !(line.len() > 0 && line.last() == '\r'),
    ensures
        hits_of(OutputView { stdout: Seq::empty(), canonical: others }, root).len() == 0,
        hits_of(
            OutputView { stdout: line.push('\n') + rest, canonical: seq![canonical] + others },
            root,
        ) == (match hit_of(line, root, canonical) {
            Some(hit) => seq![hit],
            None => Seq::empty(),
        }) + hits_of(OutputView { stdout: rest, canonical: others }, root),
{
    lines_come_one_after_another(line, rest);
    let whole = OutputView { stdout: line.push('\n') + rest, canonical: seq![canonical] + others };
    let tail = OutputView { stdout: rest, canonical: others };
    let none = OutputView { stdout: Seq::empty(), canonical: others };
    assert(lines(none.stdout).len() == 0);
    let reports = Seq::new(
        lines(whole.stdout).len(),
        |i: int| hit_of(lines(whole.stdout)[i], root, canonical_at(whole.canonical, i)),
    );
    let behind = Seq::new(
        lines(tail.stdout).len(),
        |i: int| hit_of(lines(tail.stdout)[i], root, canonical_at(tail.canonical, i)),
    );
    assert(reports =~= seq![hit_of(line, root, canonical)] + behind);
    lemma_present_front(hit_of(line, root, canonical), behind);
}

/// A line without the two colons and numbers of a hit is none.
pub proof fn other_lines_are_no_hits(
    text: Seq<char>,
    root: Seq<char>,
    canonical: Option<Seq<char>>,
)
    requires
        !text.contains(':'),
    ensures
        hit_of(text, root, canonical) is None,
{
    crate::text_laws::characters_are_found(text, ':');
    if super::search::behind_char(text, ':') is Some {
        let i = crate::text::index_of(text, ':');
        assert(text[i] == ':');
    }
    assert(rg_fields(text) is None);
}

/// The path that a line names, before it is known whether it is relative: its file taken from
/// the root.
pub proof fn lines_name_a_path(
    file: Seq<char>,
    line: Seq<char>,
    column: Seq<char>,
    content: Seq<char>,
    root: Seq<char>,
)
    requires
        !file.contains(':'),
        !line.contains(':'),
        !column.contains(':'),
        number_of(trim(line)) is Some,
        number_of(trim(column)) is Some,
    ensures
        named_path(file.push(':') + (line.push(':') + (column.push(':') + content)), root) == Some(
            joined(root, file),
        ),
{
    output_line_is_read_back(file, line, column, content);
}

/// What is said of a hit and of a search is what it holds: the text of the URL, the range and the
/// line of a hit; and the root, the patterns and the two switches of a search.
pub proof fn hits_and_searches_say_what_they_hold(
    hits: Seq<(Location, String)>,
    locations: Seq<Location>,
    search: RgSearch,
    k: int,
)
    requires
        0 <= k,
    ensures
        hit_views(hits).len() == hits.len(),
        k < hits.len() ==> hit_views(hits)[k].location.uri == url_text(hits[k].0.uri) && hit_views(
            hits,
        )[k].location.range == hits[k].0.range && hit_views(hits)[k].content == hits[k].1@,
        location_views(locations).len() == locations.len(),
        k < locations.len() ==> location_views(locations)[k].uri == url_text(locations[k].uri)
            && location_views(locations)[k].range == locations[k].range,
        search@.parse_root == search.parse_root@,
        search@.patterns.len() == search.patterns@.len(),
        k < search.patterns@.len() ==> search@.patterns[k] == search.patterns@[k]@,
        search@.word_regexp == search.word_regexp,
        search@.list_files == search.list_files,
        search.target matches RgTarget::Root(root) ==> search@.target == TargetView::Root(root@),
        search.target matches RgTarget::SourcePaths(paths) ==> search@.target
            == TargetView::SourcePaths(texts(paths@)),
        search.target matches RgTarget::Files(files) ==> search@.target == TargetView::Files(
            texts(files@),
        ),
{
}

/// The last line of an output counts whether or not it is ended.
pub proof fn the_last_line_need_not_end(
    line: Seq<char>,
    root: Seq<char>,
    canonical: Option<Seq<char>>,
    others: Seq<Option<Seq<char>>>,
)
    requires
        line.len() > 0,
        !line.contains('\n'),
        line.last() != '\r',
    ensures
        hits_of(OutputView { stdout: line, canonical: seq![canonical] + others }, root) == hits_of(
            OutputView { stdout: line.push('\n'), canonical: seq![canonical] + others },
            root,
        ),
        hits_of(OutputView { stdout: line, canonical: seq![canonical] + others }, root) == (
        match hit_of(line, root, canonical) {
            Some(hit) => seq![hit],
            None => Seq::empty(),
        }),
{
    let rest = Seq::<char>::empty();
    lines_come_one_after_another(line, rest);
    outputs_are_read_line_by_line(line, rest, root, canonical, others);
    assert(line.push('\n') + rest =~= line.push('\n'));
    assert(lines(line.push('\n')) =~= lines(line));
    let a = OutputView { stdout: line, canonical: seq![canonical] + others };
    let b = OutputView { stdout: line.push('\n'), canonical: seq![canonical] + others };
    assert(Seq::new(
        lines(a.stdout).len(),
        |i: int| hit_of(lines(a.stdout)[i], root, canonical_at(a.canonical, i)),
    ) =~= Seq::new(
        lines(b.stdout).len(),
        |i: int| hit_of(lines(b.stdout)[i], root, canonical_at(b.canonical, i)),
    ));
    assert(hits_of(OutputView { stdout: rest, canonical: others }, root) =~= Seq::empty());
}

/// A hit in a file that is relative even when it is taken from the root is one in the canonical
/// form of that path.
pub proof fn hits_in_relative_paths_are_canonical(
    file: Seq<char>,
    line: Seq<char>,
    column: Seq<char>,
    content: Seq<char>,
    root: Seq<char>,
    canonical: Seq<char>,
)
    requires
        !(file.len() > 0 && file[0] == '/'),
        !(root.len() > 0 && root[0] == '/'),
        !file.contains(':'),
        !line.contains(':'),
        !column.contains(':'),
        number_of(trim(line)) is Some,
        number_of(trim(column)) is Some,
        file_uri(canonical) is Some,
    ensures
        ({
            let hit = hit_of(
                file.push(':') + (line.push(':') + (column.push(':') + content)),
                root,
                Some(canonical),
            );
            hit is Some && hit->0.location.uri == file_uri(canonical)->0 && hit->0.content
                == content
        }),
{
    output_line_is_read_back(file, line, column, content);
    let path = joined(root, file);
    if path.len() > 0 {
        if root.len() > 0 {
            assert(path[0] == root[0]);
        } else {
            assert(path =~= file);
        }
    }
}

} // verus!
