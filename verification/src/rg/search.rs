//! One run of ripgrep: its arguments, and the locations and files its output names.
use vstd::prelude::*;

use super::pattern::SOURCE_EXTENSIONS;
use crate::path::{absolute, is_absolute, join, joined};
use crate::text::{
    chars_of, clone_strings, find_char, index_of, lemma_leading, lines, lines_of, number_of, other_than, parse_u32, slice_of,
    string_of, texts, trim, trimmed,
};
use crate::types::{point, Location, LocationView, Position, Range};
use crate::uri::{file_uri, names_file, text_of, uri_from_path};

verus! {

/// Where ripgrep searches.
pub enum RgTarget {
    /// Everything below a directory.
    Root(String),
    /// Source-root directories, relative ones taken from the search's root.
    SourcePaths(Vec<String>),
    /// These files alone.
    Files(Vec<String>),
}

/// One search: where, for what, and what to list.
pub struct RgSearch {
    pub parse_root: String,
    pub target: RgTarget,
    pub patterns: Vec<String>,
    pub word_regexp: bool,
    pub list_files: bool,
}

/// What an [`RgTarget`] says.
#[verifier::ext_equal]
pub enum TargetView {
    Root(Seq<char>),
    SourcePaths(Seq<Seq<char>>),
    Files(Seq<Seq<char>>),
}

/// What an [`RgSearch`] says.
#[verifier::ext_equal]
pub struct SearchView {
    pub parse_root: Seq<char>,
    pub target: TargetView,
    pub patterns: Seq<Seq<char>>,
    pub word_regexp: bool,
    pub list_files: bool,
}

impl View for RgTarget {
    type V = TargetView;

    open spec fn view(&self) -> TargetView {
        match self {
            RgTarget::Root(root) => TargetView::Root(root@),
            RgTarget::SourcePaths(paths) => TargetView::SourcePaths(texts(paths@)),
            RgTarget::Files(files) => TargetView::Files(texts(files@)),
        }
    }
}

impl View for RgSearch {
    type V = SearchView;

    open spec fn view(&self) -> SearchView {
        SearchView {
            parse_root: self.parse_root@,
            target: self.target@,
            patterns: texts(self.patterns@),
            word_regexp: self.word_regexp,
            list_files: self.list_files,
        }
    }
}

/// The search of everything below `root` for nothing yet.
pub open spec fn rooted_search(root: Seq<char>) -> SearchView {
    SearchView {
        parse_root: root,
        target: TargetView::Root(root),
        patterns: Seq::empty(),
        word_regexp: false,
        list_files: false,
    }
}

/// The search of the source paths, or of everything below `root` where there are none.
pub open spec fn scoped_search(source_paths: Seq<Seq<char>>, root: Seq<char>) -> SearchView {
    if source_paths.len() == 0 {
        rooted_search(root)
    } else {
        SearchView { target: TargetView::SourcePaths(source_paths), ..rooted_search(root) }
    }
}

/// The search of these files.
pub open spec fn files_search(files: Seq<Seq<char>>) -> SearchView {
    SearchView { target: TargetView::Files(files), ..rooted_search("/"@) }
}

/// What a run of ripgrep gave back.
pub struct RgOutput {
    /// What it printed; empty where it failed.
    pub stdout: String,
    /// For each line of the output, the canonical form of a path that is still relative after
    /// it was taken from the root, where the file system has one.
    pub canonical: Vec<Option<String>>,
}

/// What counts of the output of a run: nothing where the run failed.
pub fn printed(succeeded: bool, stdout: String) -> (r: String)
    ensures
        r@ == (if succeeded {
            stdout@
        } else {
            Seq::empty()
        }),
{
    if succeeded {
        stdout
    } else {
        String::new()
    }
}

/// A location together with the line it stands in.
pub struct HitView {
    pub location: LocationView,
    pub content: Seq<char>,
}

/// `s` up to the first `c`.
pub open spec fn before_char(s: Seq<char>, c: char) -> Seq<char> {
    s.take(index_of(s, c))
}

/// `s` behind the first `c`, where there is one.
pub open spec fn behind_char(s: Seq<char>, c: char) -> Option<Seq<char>> {
    if index_of(s, c) < s.len() {
        Some(s.skip(index_of(s, c) + 1))
    } else {
        None
    }
}

/// The fields of a line of output.
#[verifier::ext_equal]
pub struct RgFields {
    pub file: Seq<char>,
    pub line: u32,
    pub column: u32,
    pub content: Seq<char>,
}

/// The fields of `file:line:column:content`; the content may be missing.
pub open spec fn rg_fields(text: Seq<char>) -> Option<RgFields> {
    match behind_char(text, ':') {
        None => None,
        Some(rest) => match behind_char(rest, ':') {
            None => None,
            Some(rest2) => match (
                number_of(trim(before_char(rest, ':'))),
                number_of(trim(before_char(rest2, ':'))),
            ) {
                (Some(line), Some(column)) => Some(
                    RgFields {
                        file: before_char(text, ':'),
                        line,
                        column,
                        content: match behind_char(rest2, ':') {
                            Some(content) => content,
                            None => Seq::empty(),
                        },
                    },
                ),
                _ => None,
            },
        },
    }
}

/// The first `c` of `a`, `c` and `b` stands behind `a`, where `a` holds none.
pub proof fn lemma_first_char(a: Seq<char>, c: char, b: Seq<char>)
    requires
        !a.contains(c),
    ensures
        before_char(a.push(c) + b, c) == a,
        behind_char(a.push(c) + b, c) == Some(b),
{
    let s = a.push(c) + b;
    assert forall|i: int| 0 <= i < a.len() implies (other_than(c))(#[trigger] s[i]) by {
        assert(a.contains(a[i]));
    }
    lemma_leading(s, other_than(c), a.len() as int);
    assert(before_char(s, c) =~= a);
    assert(s.skip(a.len() as int + 1) =~= b);
}

/// A line `file:line:column:content` is read back as what it was made of, whatever the
/// content holds.
pub proof fn output_line_is_read_back(
    file: Seq<char>,
    line: Seq<char>,
    column: Seq<char>,
    content: Seq<char>,
)
    requires
        !file.contains(':'),
        !line.contains(':'),
        !column.contains(':'),
        number_of(trim(line)) is Some,
        number_of(trim(column)) is Some,
    ensures
        rg_fields(file.push(':') + (line.push(':') + (column.push(':') + content))) == Some(
            RgFields {
                file,
                line: number_of(trim(line))->0,
                column: number_of(trim(column))->0,
                content,
            },
        ),
{
    lemma_first_char(column, ':', content);
    lemma_first_char(line, ':', column.push(':') + content);
    lemma_first_char(file, ':', line.push(':') + (column.push(':') + content));
}

/// One less, or 0.
pub open spec fn zero_based(n: u32) -> u32 {
    if n == 0 {
        0
    } else {
        (n - 1) as u32
    }
}

/// The path that a line of output names, taken from the root.
pub open spec fn named_path(text: Seq<char>, root: Seq<char>) -> Option<Seq<char>> {
    match rg_fields(text) {
        Some(f) => Some(joined(root, f.file)),
        None => None,
    }
}

/// The path of a line's location: an absolute one as it is, else its canonical form where
/// there is one.
pub open spec fn final_path(path: Seq<char>, canonical: Option<Seq<char>>) -> Seq<char> {
    if absolute(path) {
        path
    } else {
        match canonical {
            Some(c) => c,
            None => path,
        }
    }
}

/// The hit that a line of output reports.
pub open spec fn hit_of(
    text: Seq<char>,
    root: Seq<char>,
    canonical: Option<Seq<char>>,
) -> Option<HitView> {
    match rg_fields(text) {
        None => None,
        Some(f) => match file_uri(final_path(joined(root, f.file), canonical)) {
            None => None,
            Some(uri) => Some(
                HitView {
                    location: LocationView {
                        uri,
                        range: point(zero_based(f.line), zero_based(f.column)),
                    },
                    content: f.content,
                },
            ),
        },
    }
}

/// The hits that have one, in order.
pub open spec fn present<A>(s: Seq<Option<A>>) -> Seq<A>
    decreases s.len(),
{
    if s.len() == 0 {
        Seq::empty()
    } else {
        match s.last() {
            Some(a) => present(s.drop_last()).push(a),
            None => present(s.drop_last()),
        }
    }
}

/// What an [`RgOutput`] says.
pub struct OutputView {
    pub stdout: Seq<char>,
    pub canonical: Seq<Option<Seq<char>>>,
}

impl View for RgOutput {
    type V = OutputView;

    open spec fn view(&self) -> OutputView {
        OutputView {
            stdout: self.stdout@,
            canonical: self.canonical@.map_values(|o: Option<String>| text_of(o)),
        }
    }
}

/// The canonical form reported for line `i`.
pub open spec fn canonical_at(canonical: Seq<Option<Seq<char>>>, i: int) -> Option<Seq<char>> {
    if 0 <= i < canonical.len() {
        canonical[i]
    } else {
        None
    }
}

/// The hits that an output reports, in order.
pub open spec fn hits_of(
    output: OutputView,
    root: Seq<char>,
) -> Seq<HitView> {
    present(
        Seq::new(
            lines(output.stdout).len(),
            |i: int| hit_of(lines(output.stdout)[i], root, canonical_at(output.canonical, i)),
        ),
    )
}

/// What a location with its line says.
pub open spec fn hit_view(h: (Location, String)) -> HitView {
    HitView { location: h.0@, content: h.1@ }
}

pub open spec fn hit_views(hits: Seq<(Location, String)>) -> Seq<HitView> {
    hits.map_values(|h: (Location, String)| hit_view(h))
}

pub open spec fn location_views(locs: Seq<Location>) -> Seq<LocationView> {
    locs.map_values(|l: Location| l@)
}

/// Each value behind the flag.
pub open spec fn flagged(flag: Seq<char>, values: Seq<Seq<char>>) -> Seq<Seq<char>>
    decreases values.len(),
{
    if values.len() == 0 {
        Seq::empty()
    } else {
        flagged(flag, values.drop_last()).push(flag).push(values.last())
    }
}

/// The globs of the source files.
pub open spec fn source_globs() -> Seq<Seq<char>> {
    Seq::new(3, |i: int| "*."@ + SOURCE_EXTENSIONS@[i]@)
}

/// Those of the paths whose flag is set.
pub open spec fn flag_set(paths: Seq<Seq<char>>, flags: Seq<bool>) -> Seq<Seq<char>>
    decreases paths.len(),
{
    if paths.len() == 0 {
        Seq::empty()
    } else {
        let before = flag_set(paths.drop_last(), flags);
        if paths.len() <= flags.len() && flags[paths.len() - 1] {
            before.push(paths.last())
        } else {
            before
        }
    }
}

/// Each path taken from the root.
pub open spec fn joined_all(root: Seq<char>, paths: Seq<Seq<char>>) -> Seq<Seq<char>> {
    paths.map_values(|p: Seq<char>| joined(root, p))
}

proof fn lemma_flag_set(paths: Seq<Seq<char>>, flags: Seq<bool>)
    ensures
        forall|d: Seq<char>| #[trigger] flag_set(paths, flags).contains(d) ==> paths.contains(d),
    decreases paths.len(),
{
    if paths.len() > 0 {
        lemma_flag_set(paths.drop_last(), flags);
        let before = flag_set(paths.drop_last(), flags);
        let all = flag_set(paths, flags);
        assert forall|d: Seq<char>| #[trigger] all.contains(d) implies paths.contains(d) by {
            let i = all.index_of(d);
            if i < before.len() {
                assert(before[i] == d);
                assert(before.contains(d));
                let k = paths.drop_last().index_of(d);
                assert(paths[k] == d);
            } else {
                assert(paths[paths.len() - 1] == d);
            }
        }
    }
}

/// A search of source paths searches nothing but source paths, as soon as one of them exists;
/// where none does, it searches the root.
pub proof fn source_paths_scope_the_search(search: SearchView, is_dir: Seq<bool>)
    requires
        search.target is SourcePaths,
    ensures
        ({
            let dirs = flag_set(search.candidates(), is_dir);
            if dirs.len() == 0 {
                search.target_args(dirs) == seq![search.parse_root]
            } else {
                forall|d: Seq<char>| #[trigger]
                    search.target_args(dirs).contains(d) ==> search.candidates().contains(d)
            }
        }),
{
    lemma_flag_set(search.candidates(), is_dir);
}

fn push_text(v: &mut Vec<String>, s: &str)
    ensures
        texts(final(v)@) == texts(old(v)@).push(s@),
{
    v.push(s.to_owned());
    assert(texts(v@) =~= texts(old(v)@).push(s@));
}

fn push_all(v: &mut Vec<String>, more: &Vec<String>)
    ensures
        texts(final(v)@) == texts(old(v)@) + texts(more@),
{
    let ghost before = texts(v@);
    assert(before + texts(more@).take(0) =~= before);
    for i in 0..more.len()
        invariant
            texts(v@) == before + texts(more@).take(i as int),
    {
        push_text(v, more[i].as_str());
        assert(before + texts(more@).take(i + 1) =~= (before + texts(more@).take(i as int)).push(
            texts(more@)[i as int],
        ));
    }
    assert(texts(more@).take(more@.len() as int) =~= texts(more@));
}

/// The fields of a line of output, as text and numbers.
fn split_fields(line: &[char]) -> (r: Option<(Vec<char>, u32, u32, Vec<char>)>)
    ensures
        match r {
            Some(f) => rg_fields(line@) == Some(
                RgFields { file: f.0@, line: f.1, column: f.2, content: f.3@ },
            ),
            None => rg_fields(line@) is None,
        },
{
    let a: usize = find_char(line, ':');
    if a == line.len() {
        return None;
    }
    let file = slice_of(line, 0, a);
    assert(file@ =~= before_char(line@, ':'));
    let rest = slice_of(line, a + 1, line.len());
    assert(rest@ =~= line@.skip(a + 1));
    let b: usize = find_char(rest.as_slice(), ':');
    if b == rest.len() {
        return None;
    }
    let first = slice_of(rest.as_slice(), 0, b);
    assert(first@ =~= before_char(rest@, ':'));
    let rest2 = slice_of(rest.as_slice(), b + 1, rest.len());
    assert(rest2@ =~= rest@.skip(b + 1));
    let c: usize = find_char(rest2.as_slice(), ':');
    let second = slice_of(rest2.as_slice(), 0, c);
    assert(second@ =~= before_char(rest2@, ':'));
    let content = if c < rest2.len() {
        let tail = slice_of(rest2.as_slice(), c + 1, rest2.len());
        assert(tail@ =~= rest2@.skip(c + 1));
        tail
    } else {
        Vec::new()
    };
    assert(content@ =~= match behind_char(rest2@, ':') {
        Some(t) => t,
        None => Seq::empty(),
    });
    match (parse_u32(trimmed(first.as_slice()).as_slice()), parse_u32(
        trimmed(second.as_slice()).as_slice(),
    )) {
        (Some(line_num), Some(col)) => Some((file, line_num, col, content)),
        _ => None,
    }
}

fn point_at(line_num: u32, col: u32) -> (r: Range)
    ensures
        r == point(zero_based(line_num), zero_based(col)),
{
    let line: u32 = if line_num == 0 {
        0
    } else {
        line_num - 1
    };
    let character: u32 = if col == 0 {
        0
    } else {
        col - 1
    };
    let start = Position { line, character };
    Range { start, end: start }
}

/// Parses one line `/abs/path/to/File.kt:line:col:content` of output.
///
/// A line of another form and one that names a relative path give nothing.
pub fn parse_rg_line(line: &str) -> (r: Option<Location>)
    ensures
        match r {
            Some(loc) => match rg_fields(line@) {
                Some(f) => absolute(f.file) && file_uri(f.file) == Some(loc@.uri) && names_file(
                    loc@.uri,
                    f.file,
                ) && loc.range == point(zero_based(f.line), zero_based(f.column)),
                None => false,
            },
            None => match rg_fields(line@) {
                Some(f) => !absolute(f.file),
                None => true,
            },
        },
{
    let (file, line_num, col, _content) = match split_fields(chars_of(line).as_slice()) {
        Some(fields) => fields,
        None => {
            return None;
        },
    };
    let path = string_of(file.as_slice());
    if !is_absolute(path.as_str()) {
        return None;
    }
    match uri_from_path(path.as_str()) {
        Some(uri) => Some(Location { uri, range: point_at(line_num, col) }),
        None => None,
    }
}

/// Parses one line of output whose path may be relative to `root`.
///
/// `canonical` is the canonical form of a path that is relative even so.
pub fn parse_rg_line_with_content_rooted(
    line: &str,
    root: &str,
    canonical: &Option<String>,
) -> (r: Option<(Location, String)>)
    ensures
        match r {
            Some(hit) => hit_of(line@, root@, text_of(*canonical)) == Some(hit_view(hit))
                && names_file(
                hit.0@.uri,
                final_path(joined(root@, rg_fields(line@)->0.file), text_of(*canonical)),
            ),
            None => hit_of(line@, root@, text_of(*canonical)) is None,
        },
        r is None <==> match rg_fields(line@) {
            Some(f) => !absolute(final_path(joined(root@, f.file), text_of(*canonical))),
            None => true,
        },
{
    let (file, line_num, col, content) = match split_fields(chars_of(line).as_slice()) {
        Some(fields) => fields,
        None => {
            return None;
        },
    };
    let path = join(root, string_of(file.as_slice()).as_str());
    let path = if is_absolute(path.as_str()) {
        path
    } else {
        match canonical {
            Some(c) => c.clone(),
            None => path,
        }
    };
    match uri_from_path(path.as_str()) {
        Some(uri) => Some(
            (Location { uri, range: point_at(line_num, col) }, string_of(content.as_slice())),
        ),
        None => None,
    }
}

impl SearchView {
    /// The search for one pattern more.
    pub open spec fn with(self, pattern: Seq<char>) -> SearchView {
        SearchView { patterns: self.patterns.push(pattern), ..self }
    }

    /// The search for whole words.
    pub open spec fn of_words(self) -> SearchView {
        SearchView { word_regexp: true, ..self }
    }

    /// The search that lists the files with a match.
    pub open spec fn of_files(self) -> SearchView {
        SearchView { list_files: true, ..self }
    }

    /// The directories to search, before it is known which of them exist.
    pub open spec fn candidates(self) -> Seq<Seq<char>> {
        match self.target {
            TargetView::SourcePaths(paths) => joined_all(self.parse_root, paths),
            _ => Seq::empty(),
        }
    }

    /// The arguments that say what to print.
    pub open spec fn mode_args(self) -> Seq<Seq<char>> {
        (if self.list_files {
            seq!["-l"@]
        } else {
            seq!["--no-heading"@, "--with-filename"@, "--line-number"@, "--column"@]
        }) + (if self.word_regexp {
            seq!["--word-regexp"@]
        } else {
            Seq::empty()
        })
    }

    /// The arguments that name the target, of whose directories `dirs` exist.
    pub open spec fn target_args(self, dirs: Seq<Seq<char>>) -> Seq<Seq<char>> {
        match self.target {
            TargetView::Root(root) => seq![root],
            TargetView::SourcePaths(_) => if dirs.len() > 0 {
                dirs
            } else {
                seq![self.parse_root]
            },
            TargetView::Files(files) => seq!["--"@] + files,
        }
    }

    /// The arguments of the run.
    pub open spec fn args(self, is_dir: Seq<bool>) -> Seq<Seq<char>> {
        self.mode_args() + flagged("--glob"@, source_globs()) + flagged("-e"@, self.patterns)
            + self.target_args(flag_set(self.candidates(), is_dir))
    }

    /// The root that relative file names of a listing are taken from.
    pub open spec fn listing_root(self) -> Seq<char> {
        match self.target {
            TargetView::Root(root) => root,
            _ => self.parse_root,
        }
    }

    /// The files that the output of a listing names; a search of given files lists none.
    pub open spec fn listed(self, stdout: Seq<char>) -> Seq<Seq<char>> {
        match self.target {
            TargetView::Files(_) => Seq::empty(),
            _ => joined_all(self.listing_root(), lines(stdout)),
        }
    }
}

impl RgSearch {
    /// A search of everything below `root`.
    pub fn rooted(root: &str) -> (r: Self)
        ensures
            r@ == rooted_search(root@),
    {
        let r = RgSearch {
            parse_root: root.to_owned(),
            target: RgTarget::Root(root.to_owned()),
            patterns: Vec::new(),
            word_regexp: false,
            list_files: false,
        };
        assert(texts(r.patterns@) =~= Seq::<Seq<char>>::empty());
        r
    }

    /// A search of the source paths alone; of everything below `fallback_root` without any.
    pub fn scoped(source_paths: &[String], fallback_root: &str) -> (r: Self)
        ensures
            r@ == scoped_search(texts(source_paths@), fallback_root@),
    {
        if source_paths.len() == 0 {
            return Self::rooted(fallback_root);
        }
        let r = RgSearch {
            parse_root: fallback_root.to_owned(),
            target: RgTarget::SourcePaths(clone_strings(source_paths)),
            patterns: Vec::new(),
            word_regexp: false,
            list_files: false,
        };
        assert(texts(r.patterns@) =~= Seq::<Seq<char>>::empty());
        r
    }

    /// A search of these files alone.
    pub fn files(files: &[String]) -> (r: Self)
        ensures
            r@ == files_search(texts(files@)),
    {
        let r = RgSearch {
            parse_root: "/".to_owned(),
            target: RgTarget::Files(clone_strings(files)),
            patterns: Vec::new(),
            word_regexp: false,
            list_files: false,
        };
        assert(texts(r.patterns@) =~= Seq::<Seq<char>>::empty());
        r
    }

    /// The search with one pattern more.
    pub fn with_pattern(self, pattern: String) -> (r: Self)
        ensures
            r@ == self@.with(pattern@),
    {
        let mut r = self;
        r.patterns.push(pattern);
        assert(texts(r.patterns@) =~= texts(self.patterns@).push(pattern@));
        r
    }

    /// The search with more patterns.
    pub fn with_patterns(self, patterns: &Vec<String>) -> (r: Self)
        ensures
            r@ == (SearchView { patterns: self@.patterns + texts(patterns@), ..self@ }),
    {
        let mut r = self;
        push_all(&mut r.patterns, patterns);
        r
    }

    /// The search for whole words.
    pub fn word_regexp(self) -> (r: Self)
        ensures
            r@ == self@.of_words(),
    {
        let mut r = self;
        r.word_regexp = true;
        r
    }

    /// The search that lists the files with a match.
    pub fn list_files(self) -> (r: Self)
        ensures
            r@ == self@.of_files(),
    {
        let mut r = self;
        r.list_files = true;
        r
    }

    /// The directories to search, before it is known which of them exist.
    pub fn candidate_dirs(&self) -> (r: Vec<String>)
        ensures
            texts(r@) == self@.candidates(),
    {
        let mut r: Vec<String> = Vec::new();
        if let RgTarget::SourcePaths(paths) = &self.target {
            let ghost all = self@.candidates();
            for i in 0..paths.len()
                invariant
                    all == joined_all(self.parse_root@, texts(paths@)),
                    texts(r@) == all.take(i as int),
            {
                let dir = join(self.parse_root.as_str(), paths[i].as_str());
                assert(dir@ == all[i as int]);
                push_text(&mut r, dir.as_str());
                assert(all.take(i + 1) =~= all.take(i as int).push(dir@));
            }
            assert(all.take(paths@.len() as int) =~= all);
        }
        assert(texts(r@) =~= self@.candidates());
        r
    }

    /// The arguments of the run; `is_dir` says of each candidate directory whether it exists.
    ///
    /// Without any source path that exists, the whole root is searched.
    pub fn build_command(&self, is_dir: &[bool]) -> (r: Vec<String>)
        ensures
            texts(r@) == self@.args(is_dir@),
    {
        let mut r: Vec<String> = Vec::new();
        if self.list_files {
            push_text(&mut r, "-l");
        } else {
            push_text(&mut r, "--no-heading");
            push_text(&mut r, "--with-filename");
            push_text(&mut r, "--line-number");
            push_text(&mut r, "--column");
        }
        if self.word_regexp {
            push_text(&mut r, "--word-regexp");
        }
        assert(texts(r@) =~= self@.mode_args());
        let ghost head = texts(r@);
        assert(head + flagged("--glob"@, source_globs().take(0)) =~= head);
        for i in 0..3
            invariant
                texts(r@) == head + flagged("--glob"@, source_globs().take(i as int)),
        {
            let mut glob = "*.".to_owned();
            glob.append(SOURCE_EXTENSIONS[i]);
            push_text(&mut r, "--glob");
            push_text(&mut r, glob.as_str());
            assert(source_globs().take(i + 1).drop_last() =~= source_globs().take(i as int));
            assert(texts(r@) =~= head + flagged("--glob"@, source_globs().take(i + 1)));
        }
        assert(source_globs().take(3) =~= source_globs());
        let ghost head = texts(r@);
        let ghost all = texts(self.patterns@);
        assert(head + flagged("-e"@, all.take(0)) =~= head);
        for i in 0..self.patterns.len()
            invariant
                all == texts(self.patterns@),
                texts(r@) == head + flagged("-e"@, all.take(i as int)),
        {
            push_text(&mut r, "-e");
            push_text(&mut r, self.patterns[i].as_str());
            assert(all.take(i + 1).drop_last() =~= all.take(i as int));
            assert(texts(r@) =~= head + flagged("-e"@, all.take(i + 1)));
        }
        assert(all.take(all.len() as int) =~= all);
        let ghost head = texts(r@);
        match &self.target {
            RgTarget::Root(root) => {
                push_text(&mut r, root.as_str());
                assert(texts(r@) =~= head + seq![root@]);
            },
            RgTarget::SourcePaths(_) => {
                let candidates = self.candidate_dirs();
                let ghost dirs = texts(candidates@);
                let mut any_added = false;
                assert(head + flag_set(dirs.take(0), is_dir@) =~= head);
                for i in 0..candidates.len()
                    invariant
                        dirs == texts(candidates@),
                        texts(r@) == head + flag_set(dirs.take(i as int), is_dir@),
                        any_added == (flag_set(dirs.take(i as int), is_dir@).len() > 0),
                {
                    assert(dirs.take(i + 1).drop_last() =~= dirs.take(i as int));
                    if i < is_dir.len() && is_dir[i] {
                        push_text(&mut r, candidates[i].as_str());
                        any_added = true;
                    }
                    assert(texts(r@) =~= head + flag_set(dirs.take(i + 1), is_dir@));
                }
                assert(dirs.take(dirs.len() as int) =~= dirs);
                if !any_added {
                    push_text(&mut r, self.parse_root.as_str());
                    assert(texts(r@) =~= head + seq![self.parse_root@]);
                }
            },
            RgTarget::Files(files) => {
                push_text(&mut r, "--");
                push_all(&mut r, files);
                assert(texts(r@) =~= head + (seq!["--"@] + texts(files@)));
            },
        }
        r
    }

    /// For each line of the output, the path it names where that path is still relative after
    /// it was taken from the root.
    pub fn relative_paths(&self, stdout: &str) -> (r: Vec<Option<String>>)
        ensures
            r@.len() == lines(stdout@).len(),
            forall|i: int|
                0 <= i < r@.len() ==> text_of(#[trigger] r@[i]) == match named_path(
                    lines(stdout@)[i],
                    self.parse_root@,
                ) {
                    Some(p) => if absolute(p) {
                        None
                    } else {
                        Some(p)
                    },
                    None => None,
                },
    {
        let all = lines_of(chars_of(stdout).as_slice());
        let mut r: Vec<Option<String>> = Vec::new();
        for i in 0..all.len()
            invariant
                all@.len() == lines(stdout@).len(),
                forall|k: int| 0 <= k < all@.len() ==> (#[trigger] all@[k])@ == lines(stdout@)[k],
                r@.len() == i,
                forall|k: int|
                    0 <= k < i ==> text_of(#[trigger] r@[k]) == match named_path(
                        lines(stdout@)[k],
                        self.parse_root@,
                    ) {
                        Some(p) => if absolute(p) {
                            None
                        } else {
                            Some(p)
                        },
                        None => None,
                    },
        {
            let named = match split_fields(all[i].as_slice()) {
                Some(fields) => {
                    let path = join(self.parse_root.as_str(), string_of(fields.0.as_slice()).as_str());
                    if is_absolute(path.as_str()) {
                        None
                    } else {
                        Some(path)
                    }
                },
                None => None,
            };
            r.push(named);
        }
        r
    }

    /// The locations that the output names, each with its line.
    pub fn locations_with_content(&self, output: &RgOutput) -> (r: Vec<(Location, String)>)
        ensures
            hit_views(r@) == hits_of(output@, self.parse_root@),
    {
        let all = lines_of(chars_of(output.stdout.as_str()).as_slice());
        let ghost reports = Seq::new(
            lines(output@.stdout).len(),
            |i: int| hit_of(lines(output@.stdout)[i], self.parse_root@, canonical_at(output@.canonical, i)),
        );
        let mut r: Vec<(Location, String)> = Vec::new();
        assert(hit_views(r@) =~= present(reports.take(0)));
        for i in 0..all.len()
            invariant
                all@.len() == lines(output@.stdout).len(),
                forall|k: int|
                    0 <= k < all@.len() ==> (#[trigger] all@[k])@ == lines(output@.stdout)[k],
                reports == Seq::new(
                    lines(output@.stdout).len(),
                    |i: int|
                        hit_of(lines(output@.stdout)[i], self.parse_root@, canonical_at(output@.canonical, i)),
                ),
                hit_views(r@) == present(reports.take(i as int)),
        {
            let line = string_of(all[i].as_slice());
            assert(reports.take(i + 1).drop_last() =~= reports.take(i as int));
            let none: Option<String> = None;
            let canonical = if i < output.canonical.len() {
                &output.canonical[i]
            } else {
                &none
            };
            assert(text_of(*canonical) == canonical_at(output@.canonical, i as int));
            let ghost before = hit_views(r@);
            if let Some(hit) = parse_rg_line_with_content_rooted(
                line.as_str(),
                self.parse_root.as_str(),
                canonical,
            ) {
                r.push(hit);
                assert(hit_views(r@) =~= before.push(hit_view(hit)));
            }
        }
        assert(reports.take(reports.len() as int) =~= reports);
        r
    }

    /// The locations that the output names.
    pub fn locations(&self, output: &RgOutput) -> (r: Vec<Location>)
        ensures
            location_views(r@) == hits_of(output@, self.parse_root@).map_values(
                |h: HitView| h.location,
            ),
    {
        let hits = self.locations_with_content(output);
        let mut r: Vec<Location> = Vec::new();
        for hit in it: hits
            invariant
                it.seq() == hits@,
                r@.len() == it.index(),
                forall|k: int| 0 <= k < r@.len() ==> #[trigger] r@[k] == hits@[k].0,
        {
            let (location, _content) = hit;
            r.push(location);
        }
        assert forall|k: int| 0 <= k < r@.len() implies #[trigger] location_views(r@)[k]
            == hits_of(output@, self.parse_root@).map_values(|h: HitView| h.location)[k] by {
            assert(hit_views(hits@)[k] == hit_view(hits@[k]));
        }
        assert(hit_views(hits@).len() == hits@.len());
        assert(location_views(r@) =~= hits_of(output@, self.parse_root@).map_values(
            |h: HitView| h.location,
        ));
        r
    }

    /// The files that the output names, one per line, relative ones taken from the root.
    pub fn files_with_matches(&self, stdout: &str) -> (r: Vec<String>)
        ensures
            texts(r@) == self@.listed(stdout@),
    {
        let mut r: Vec<String> = Vec::new();
        let root = match &self.target {
            RgTarget::Root(root) => root.as_str(),
            RgTarget::Files(_) => {
                assert(texts(r@) =~= Seq::<Seq<char>>::empty());
                return r;
            },
            RgTarget::SourcePaths(_) => self.parse_root.as_str(),
        };
        let all = lines_of(chars_of(stdout).as_slice());
        let ghost files = joined_all(root@, lines(stdout@));
        assert(texts(r@) =~= files.take(0));
        for i in 0..all.len()
            invariant
                all@.len() == lines(stdout@).len(),
                forall|k: int| 0 <= k < all@.len() ==> (#[trigger] all@[k])@ == lines(stdout@)[k],
                files == joined_all(root@, lines(stdout@)),
                texts(r@) == files.take(i as int),
        {
            let file = join(root, string_of(all[i].as_slice()).as_str());
            assert(file@ == files[i as int]);
            push_text(&mut r, file.as_str());
            assert(files.take(i + 1) =~= files.take(i as int).push(file@));
        }
        assert(files.take(files.len() as int) =~= files);
        r
    }
}

} // verus!
