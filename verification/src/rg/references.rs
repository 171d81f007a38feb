//! Finding the usages of a name: which runs of ripgrep to make, and what they add up to.
use vstd::prelude::*;

use super::hits::{
    has_keyword, has_wrong_qualifier, holds_keyword, imports_or_package, is_import_or_package,
    wrongly_qualified,
};
use super::ignore::IgnoreMatcher;
use super::pattern::{
    direct_import_pattern, escaped, mention_pattern, package_import_pattern, package_pattern,
    qualified_pattern, regex_escape,
};
use super::search::{
    files_search, hit_view, hit_views, hits_of, location_views, scoped_search, HitView, OutputView, RgOutput,
    RgSearch, SearchView,
};
use crate::path::below;
use crate::text::{eq_str, extend_texts, extended, texts};
use crate::types::{Location, LocationView};

verus! {

/// What to look for in a reference search.
pub struct RgSearchRequest<'a> {
    pub name: &'a str,
    pub parent_class: Option<&'a str>,
    pub declared_pkg: Option<&'a str>,
    /// Outer class of a method declared inside a doubly nested class.
    ///
    /// Callers reach such a method through a variable (`factory.create()`), so the files that
    /// mention this class are searched instead of those that import the method's own class.
    pub owner_class: Option<&'a str>,
    pub search_root: &'a str,
    /// Source-root directories; when there are any, the search is scoped to them.
    pub source_paths: &'a [String],
    pub include_decl: bool,
    pub from_uri: &'a str,
    pub decl_files: &'a [String],
}

/// What an [`RgSearchRequest`] says.
pub struct RequestView {
    pub name: Seq<char>,
    pub parent_class: Option<Seq<char>>,
    pub declared_pkg: Option<Seq<char>>,
    pub owner_class: Option<Seq<char>>,
    pub search_root: Seq<char>,
    pub source_paths: Seq<Seq<char>>,
    pub include_decl: bool,
    pub from_uri: Seq<char>,
    pub decl_files: Seq<Seq<char>>,
}

/// The text of an optional string slice.
pub open spec fn opt_text(o: Option<&str>) -> Option<Seq<char>> {
    match o {
        Some(s) => Some(s@),
        None => None,
    }
}

impl<'a> View for RgSearchRequest<'a> {
    type V = RequestView;

    open spec fn view(&self) -> RequestView {
        RequestView {
            name: self.name@,
            parent_class: opt_text(self.parent_class),
            declared_pkg: opt_text(self.declared_pkg),
            owner_class: opt_text(self.owner_class),
            search_root: self.search_root@,
            source_paths: texts(self.source_paths@),
            include_decl: self.include_decl,
            from_uri: self.from_uri@,
            decl_files: texts(self.decl_files@),
        }
    }
}

/// What identifies a reference: its file, line and column.
pub open spec fn key_of(l: LocationView) -> (Seq<char>, u32, u32) {
    (l.uri, l.range.start.line, l.range.start.character)
}

/// One of the locations has the key of `l`.
pub open spec fn has_key(locs: Seq<LocationView>, l: LocationView) -> bool {
    exists|i: int| 0 <= i < locs.len() && key_of(#[trigger] locs[i]) == key_of(l)
}

/// The path lies below one of the source paths.
pub open spec fn in_scope(source_paths: Seq<Seq<char>>) -> spec_fn(Seq<char>) -> bool {
    |f: Seq<char>| exists|i: int| 0 <= i < source_paths.len() && below(f, #[trigger] source_paths[i])
}

/// The declaration files that the scope leaves: all of them where there are no source paths.
pub open spec fn scoped_files(
    decl_files: Seq<Seq<char>>,
    source_paths: Seq<Seq<char>>,
) -> Seq<Seq<char>> {
    if source_paths.len() == 0 {
        decl_files
    } else {
        decl_files.filter(in_scope(source_paths))
    }
}

/// Not being excluded by the matcher.
pub open spec fn kept_file(matcher: Option<&IgnoreMatcher>) -> spec_fn(Seq<char>) -> bool {
    |f: Seq<char>| matcher matches Some(m) ==> !m.excludes_path(f)
}

/// Lying in no file that the matcher excludes.
pub open spec fn kept_location(matcher: Option<&IgnoreMatcher>) -> spec_fn(LocationView) -> bool {
    |l: LocationView| matcher matches Some(m) ==> m.keeps_uri(l.uri)
}

impl RequestView {
    /// The line is no reference: an import, a package declaration or, where declarations are
    /// not wanted, a declaration in the file the request comes from.
    pub open spec fn skips(self, hit: HitView) -> bool {
        imports_or_package(hit.content) || (!self.include_decl && holds_keyword(hit.content)
            && hit.location.uri == self.from_uri)
    }

    /// Being a reference.
    pub open spec fn takes(self) -> spec_fn(HitView) -> bool {
        |h: HitView| !self.skips(h)
    }

    /// The line names the symbol of another class than the one asked for.
    pub open spec fn of_other_class(self, hit: HitView) -> bool {
        self.parent_class matches Some(p) && wrongly_qualified(hit.content, self.name, p)
    }

    /// Where the references among the hits are.
    pub open spec fn references(self, hits: Seq<HitView>) -> Seq<LocationView> {
        hits.filter(self.takes()).map_values(|h: HitView| h.location)
    }

    /// The locations, and behind them those of the hits that are references, are not of
    /// another class and have a key that is not yet there.
    pub open spec fn appended(self, locs: Seq<LocationView>, hits: Seq<HitView>) -> Seq<
        LocationView,
    >
        decreases hits.len(),
    {
        if hits.len() == 0 {
            locs
        } else {
            let before = self.appended(locs, hits.drop_last());
            let h = hits.last();
            if self.skips(h) || self.of_other_class(h) || has_key(before, h.location) {
                before
            } else {
                before.push(h.location)
            }
        }
    }

    /// The patterns of the request, the bare name last.
    pub open spec fn patterns(self) -> Seq<Seq<char>> {
        match self.parent_class {
            Some(parent) => seq![
                qualified_pattern(parent, self.name),
                direct_import_pattern(parent, self.name),
                escaped(self.name),
            ],
            None => match self.declared_pkg {
                Some(package) => seq![
                    package_import_pattern(package, self.name),
                    package_pattern(package),
                    escaped(self.name),
                ],
                None => seq![escaped(self.name)],
            },
        }
    }

    /// A search where the request looks, for nothing yet.
    pub open spec fn scope(self) -> SearchView {
        scoped_search(self.source_paths, self.search_root)
    }
}

/// Where a reference search stands; each stage makes one run of ripgrep.
pub enum ReferenceStage {
    /// The name, everywhere in the scope.
    Plain,
    /// The name behind its parent class.
    Qualified,
    /// The files that import the name from its parent class; the qualified ones are found.
    Importers(Vec<Location>),
    /// The files that import the name from its package.
    PackageImporters,
    /// The files of the package; those that import from it are found.
    PackageMembers(Vec<String>),
    /// The files that mention the owner class.
    OwnerMentions,
    /// The bare name in these files.
    Bare(Vec<String>),
    /// The bare name in these files, added to the qualified ones.
    BareOfParent(Vec<Location>, Vec<String>),
}

/// What a [`ReferenceStage`] says.
#[verifier::ext_equal]
pub enum StageView {
    Plain,
    Qualified,
    Importers(Seq<LocationView>),
    PackageImporters,
    PackageMembers(Seq<Seq<char>>),
    OwnerMentions,
    Bare(Seq<Seq<char>>),
    BareOfParent(Seq<LocationView>, Seq<Seq<char>>),
}

impl View for ReferenceStage {
    type V = StageView;

    open spec fn view(&self) -> StageView {
        match self {
            ReferenceStage::Plain => StageView::Plain,
            ReferenceStage::Qualified => StageView::Qualified,
            ReferenceStage::Importers(found) => StageView::Importers(location_views(found@)),
            ReferenceStage::PackageImporters => StageView::PackageImporters,
            ReferenceStage::PackageMembers(files) => StageView::PackageMembers(texts(files@)),
            ReferenceStage::OwnerMentions => StageView::OwnerMentions,
            ReferenceStage::Bare(files) => StageView::Bare(texts(files@)),
            ReferenceStage::BareOfParent(found, files) => StageView::BareOfParent(
                location_views(found@),
                texts(files@),
            ),
        }
    }
}

/// What follows a run of ripgrep.
pub enum ReferenceStep {
    /// Another run.
    Next(ReferenceStage),
    /// These are the references.
    Done(Vec<Location>),
}

/// What a [`ReferenceStep`] says.
#[verifier::ext_equal]
pub enum StepView {
    Next(StageView),
    Done(Seq<LocationView>),
}

impl View for ReferenceStep {
    type V = StepView;

    open spec fn view(&self) -> StepView {
        match self {
            ReferenceStep::Next(stage) => StepView::Next(stage@),
            ReferenceStep::Done(locs) => StepView::Done(location_views(locs@)),
        }
    }
}

/// The stage of the request's search that comes first.
pub open spec fn first_stage(request: RequestView) -> StageView {
    if request.owner_class is Some {
        StageView::OwnerMentions
    } else if request.parent_class is Some {
        StageView::Qualified
    } else if request.declared_pkg is Some {
        StageView::PackageImporters
    } else {
        StageView::Plain
    }
}

/// The stage can come up in the request's search.
pub open spec fn fits(request: RequestView, stage: StageView) -> bool {
    match stage {
        StageView::Plain => request.parent_class is None && request.declared_pkg is None,
        StageView::Qualified => request.parent_class is Some,
        StageView::Importers(_) => request.parent_class is Some,
        StageView::PackageImporters => request.parent_class is None && request.declared_pkg is Some,
        StageView::PackageMembers(_) => request.parent_class is None
            && request.declared_pkg is Some,
        StageView::OwnerMentions => request.owner_class is Some,
        StageView::Bare(_) => true,
        StageView::BareOfParent(_, _) => request.parent_class is Some,
    }
}

/// The run of ripgrep that the stage makes.
pub open spec fn search_of(request: RequestView, stage: StageView) -> SearchView {
    match stage {
        StageView::Plain => request.scope().with(escaped(request.name)).of_words(),
        StageView::Qualified => request.scope().with(request.patterns()[0]),
        StageView::Importers(_) => request.scope().of_files().with(request.patterns()[1]),
        StageView::PackageImporters => request.scope().of_files().with(request.patterns()[0]),
        StageView::PackageMembers(_) => request.scope().of_files().with(request.patterns()[1]),
        StageView::OwnerMentions => request.scope().of_files().with(
            mention_pattern(request.owner_class->0),
        ),
        StageView::Bare(files) => files_search(files).of_words().with(escaped(request.name)),
        StageView::BareOfParent(_, files) => files_search(files).of_words().with(
            escaped(request.name),
        ),
    }
}

/// The references in the files, where there are any files.
pub open spec fn bare_in(files: Seq<Seq<char>>) -> StepView {
    if files.len() == 0 {
        StepView::Done(Seq::empty())
    } else {
        StepView::Next(StageView::Bare(files))
    }
}

/// What follows when the references behind the class are found and the importers are listed.
pub open spec fn after_importers(
    request: RequestView,
    matcher: Option<&IgnoreMatcher>,
    found: Seq<LocationView>,
    importers: Seq<Seq<char>>,
) -> StepView {
    let files = extended(
        importers.filter(kept_file(matcher)),
        scoped_files(request.decl_files, request.source_paths),
    );
    if files.len() == 0 {
        StepView::Done(found.filter(kept_location(matcher)))
    } else {
        StepView::Next(StageView::BareOfParent(found, files))
    }
}

/// What follows the stage when its run gave this output.
pub open spec fn next_step(
    request: RequestView,
    matcher: Option<&IgnoreMatcher>,
    stage: StageView,
    output: OutputView,
) -> StepView {
    let search = search_of(request, stage);
    let hits = hits_of(output, search.parse_root);
    let listed = search.listed(output.stdout);
    match stage {
        StageView::Plain => StepView::Done(
            request.references(hits).filter(kept_location(matcher)),
        ),
        StageView::Qualified => StepView::Next(StageView::Importers(request.references(hits))),
        StageView::Importers(found) => after_importers(request, matcher, found, listed),
        StageView::PackageImporters => StepView::Next(StageView::PackageMembers(listed)),
        StageView::PackageMembers(files) => bare_in(
            extended(files, listed).filter(kept_file(matcher)),
        ),
        StageView::OwnerMentions => bare_in(listed.filter(kept_file(matcher))),
        StageView::Bare(_) => StepView::Done(
            request.references(hits).filter(kept_location(matcher)),
        ),
        StageView::BareOfParent(found, _) => StepView::Done(
            request.appended(found, hits).filter(kept_location(matcher)),
        ),
    }
}

/// How many runs may still come, this one counted.
pub open spec fn runs_left(stage: StageView) -> nat {
    match stage {
        StageView::Plain => 1,
        StageView::Qualified => 3,
        StageView::Importers(_) => 2,
        StageView::PackageImporters => 3,
        StageView::PackageMembers(_) => 2,
        StageView::OwnerMentions => 2,
        StageView::Bare(_) => 1,
        StageView::BareOfParent(_, _) => 1,
    }
}

/// Filtering the strings is filtering their texts.
proof fn lemma_filter_texts(s: Seq<String>, p: spec_fn(String) -> bool, q: spec_fn(Seq<char>) -> bool)
    requires
        forall|x: String| #[trigger] p(x) == q(x@),
    ensures
        texts(s.filter(p)) == texts(s).filter(q),
    decreases s.len(),
{
    reveal(Seq::filter);
    if s.len() > 0 {
        lemma_filter_texts(s.drop_last(), p, q);
        assert(texts(s).drop_last() =~= texts(s.drop_last()));
        assert(p(s.last()) == q(s.last()@));
    }
    assert(texts(s.filter(p)) =~= texts(s).filter(q));
}

/// Filtering the locations is filtering what they say.
proof fn lemma_filter_locations(
    s: Seq<Location>,
    p: spec_fn(Location) -> bool,
    q: spec_fn(LocationView) -> bool,
)
    requires
        forall|x: Location| #[trigger] p(x) == q(x@),
    ensures
        location_views(s.filter(p)) == location_views(s).filter(q),
    decreases s.len(),
{
    reveal(Seq::filter);
    if s.len() > 0 {
        lemma_filter_locations(s.drop_last(), p, q);
        assert(location_views(s).drop_last() =~= location_views(s.drop_last()));
        assert(p(s.last()) == q(s.last()@));
    }
    assert(location_views(s.filter(p)) =~= location_views(s).filter(q));
}

/// A filter that keeps everything changes nothing.
proof fn lemma_filter_all<A>(s: Seq<A>, q: spec_fn(A) -> bool)
    requires
        forall|x: A| #[trigger] q(x),
    ensures
        s.filter(q) == s,
    decreases s.len(),
{
    reveal(Seq::filter);
    if s.len() > 0 {
        lemma_filter_all(s.drop_last(), q);
        assert(s =~= s.drop_last().push(s.last()));
    }
}

/// Drops the locations in excluded files.
pub fn filter_locations(locs: Vec<Location>, matcher: Option<&IgnoreMatcher>) -> (r: Vec<Location>)
    ensures
        location_views(r@) == location_views(locs@).filter(kept_location(matcher)),
{
    match matcher {
        Some(m) => {
            proof {
                lemma_filter_locations(locs@, m.keeps(), kept_location(matcher));
            }
            m.filter_locs(locs)
        },
        None => {
            proof {
                lemma_filter_all(location_views(locs@), kept_location(matcher));
            }
            locs
        },
    }
}

/// Drops the candidate files that are excluded.
pub fn filter_candidate_files(
    candidate_files: Vec<String>,
    matcher: Option<&IgnoreMatcher>,
) -> (r: Vec<String>)
    ensures
        texts(r@) == texts(candidate_files@).filter(kept_file(matcher)),
{
    match matcher {
        Some(m) => {
            proof {
                lemma_filter_texts(candidate_files@, m.keeps_file(), kept_file(matcher));
            }
            m.filter_file_strings(candidate_files)
        },
        None => {
            proof {
                lemma_filter_all(texts(candidate_files@), kept_file(matcher));
            }
            candidate_files
        },
    }
}

/// Adds the files that are not yet there.
pub fn extend_unique_files(files: &mut Vec<String>, new_files: Vec<String>)
    ensures
        texts(final(files)@) == extended(texts(old(files)@), texts(new_files@)),
{
    extend_texts(files, new_files.as_slice());
}

/// Adds the declaration files that are not yet among the candidates.
pub fn merge_decl_files(candidate_files: &mut Vec<String>, decl_files: &[String])
    ensures
        texts(final(candidate_files)@) == extended(
            texts(old(candidate_files)@),
            texts(decl_files@),
        ),
{
    extend_texts(candidate_files, decl_files);
}

/// Whether the file lies below one of the source paths.
fn is_in_scope(file: &str, source_paths: &[String]) -> (r: bool)
    ensures
        r == (in_scope(texts(source_paths@)))(file@),
{
    for i in 0..source_paths.len()
        invariant
            forall|j: int| 0 <= j < i ==> !below(file@, #[trigger] texts(source_paths@)[j]),
    {
        if crate::path::starts_with(file, source_paths[i].as_str()) {
            assert(below(file@, texts(source_paths@)[i as int]));
            return true;
        }
    }
    false
}

/// The declaration files inside the source paths, component by component; all of them where
/// there are no source paths.
pub fn scope_decl_files(decl_files: &[String], source_paths: &[String]) -> (r: Vec<String>)
    ensures
        texts(r@) == scoped_files(texts(decl_files@), texts(source_paths@)),
{
    if source_paths.len() == 0 {
        return crate::text::clone_strings(decl_files);
    }
    let mut r: Vec<String> = Vec::new();
    let ghost all = texts(decl_files@);
    let ghost inside = in_scope(texts(source_paths@));
    proof {
        reveal(Seq::filter);
        assert(texts(r@) =~= all.take(0).filter(inside));
    }
    for i in 0..decl_files.len()
        invariant
            all == texts(decl_files@),
            inside == in_scope(texts(source_paths@)),
            texts(r@) == all.take(i as int).filter(inside),
    {
        proof {
            reveal(Seq::filter);
            assert(all.take(i + 1).drop_last() =~= all.take(i as int));
        }
        let ghost sofar = texts(r@);
        if is_in_scope(decl_files[i].as_str(), source_paths) {
            r.push(decl_files[i].clone());
            assert(texts(r@) =~= sofar.push(all[i as int]));
        }
    }
    assert(all.take(all.len() as int) =~= all);
    r
}

/// Whether the line at `loc` is no reference.
pub fn should_skip_reference(loc: &Location, content: &str, request: &RgSearchRequest) -> (r: bool)
    ensures
        r == request@.skips(HitView { location: loc@, content: content@ }),
{
    if is_import_or_package(content) {
        return true;
    }
    !request.include_decl && has_keyword(content) && eq_str(loc.uri.as_str(), request.from_uri)
}

/// Where the references among the hits are.
pub fn keep_references(hits: Vec<(Location, String)>, request: &RgSearchRequest) -> (r: Vec<
    Location,
>)
    ensures
        location_views(r@) == request@.references(hit_views(hits@)),
{
    let ghost all = hit_views(hits@);
    let ghost takes = request@.takes();
    let mut r: Vec<Location> = Vec::new();
    proof {
        reveal(Seq::filter);
        assert(location_views(r@) =~= request@.references(all.take(0)));
    }
    for hit in it: hits
        invariant
            it.seq() == hits@,
            all == hit_views(hits@),
            takes == request@.takes(),
            location_views(r@) == request@.references(all.take(it.index() as int)),
    {
        let ghost i = it.index() as int;
        let ghost sofar = location_views(r@);
        proof {
            reveal(Seq::filter);
            assert(all.take(i + 1).drop_last() =~= all.take(i));
            assert(all[i] == hit_view(hit));
        }
        let (location, content) = hit;
        if !should_skip_reference(&location, content.as_str(), request) {
            r.push(location);
            assert(location_views(r@) =~= sofar.push(location@));
            assert(request@.references(all.take(i + 1)) =~= sofar.push(location@));
        }
    }
    assert(all.take(all.len() as int) =~= all);
    r
}

/// Whether one of the locations has the key of `location`.
fn is_seen(locations: &Vec<Location>, location: &Location) -> (r: bool)
    ensures
        r == has_key(location_views(locations@), location@),
{
    for i in 0..locations.len()
        invariant
            forall|j: int|
                0 <= j < i ==> key_of(#[trigger] location_views(locations@)[j]) != key_of(location@),
    {
        let l = &locations[i];
        if l.range.start.line == location.range.start.line && l.range.start.character
            == location.range.start.character && eq_str(l.uri.as_str(), location.uri.as_str()) {
            assert(key_of(location_views(locations@)[i as int]) == key_of(location@));
            return true;
        }
    }
    false
}

/// Adds the references among the hits that are not of another class and not yet there.
pub fn append_unique_reference_hits(
    locations: &mut Vec<Location>,
    hits: Vec<(Location, String)>,
    request: &RgSearchRequest,
)
    ensures
        location_views(final(locations)@) == request@.appended(
            location_views(old(locations)@),
            hit_views(hits@),
        ),
{
    let ghost before = location_views(locations@);
    let ghost all = hit_views(hits@);
    assert(all.take(0) =~= Seq::<HitView>::empty());
    for hit in it: hits
        invariant
            it.seq() == hits@,
            all == hit_views(hits@),
            location_views(locations@) == request@.appended(before, all.take(it.index() as int)),
    {
        let ghost i = it.index() as int;
        let ghost sofar = location_views(locations@);
        assert(all.take(i + 1).drop_last() =~= all.take(i));
        assert(all[i] == hit_view(hit));
        let (location, content) = hit;
        let skip = should_skip_reference(&location, content.as_str(), request);
        let other = match request.parent_class {
            Some(parent) => has_wrong_qualifier(content.as_str(), request.name, parent),
            None => false,
        };
        if !skip && !other && !is_seen(locations, &location) {
            locations.push(location);
            assert(location_views(locations@) =~= sofar.push(location@));
        }
    }
    assert(all.take(all.len() as int) =~= all);
}

/// The patterns of the request, the bare name last.
pub fn build_rg_patterns(request: &RgSearchRequest) -> (r: Vec<String>)
    ensures
        texts(r@) == request@.patterns(),
{
    let name = regex_escape(request.name);
    let mut r: Vec<String> = Vec::new();
    if let Some(parent_class) = request.parent_class {
        let parent = regex_escape(parent_class);
        let mut qualified = r"\b".to_owned();
        qualified.append(parent.as_str());
        qualified.append(r"\.\b");
        qualified.append(name.as_str());
        qualified.append(r"\b");
        let mut import = r"import[^\n]*\b".to_owned();
        import.append(parent.as_str());
        import.append(r"\.(?:");
        import.append(name.as_str());
        import.append(r"\b|\*)");
        r.push(qualified);
        r.push(import);
    } else if let Some(declared_pkg) = request.declared_pkg {
        let package = regex_escape(declared_pkg);
        let mut import = r"import[^\n]*\b".to_owned();
        import.append(package.as_str());
        import.append(r"\b[^\n]*\b");
        import.append(name.as_str());
        import.append(r"\b|import[^\n]*\b");
        import.append(package.as_str());
        import.append(r"\b\.\*");
        let mut member = r"^\s*package\s+".to_owned();
        member.append(package.as_str());
        member.append(r"\s*$");
        r.push(import);
        r.push(member);
    }
    r.push(name);
    assert(texts(r@) =~= request@.patterns());
    r
}

impl<'a> RgSearchRequest<'a> {
    /// A request for the usages of `name`; without a root, below the working directory `cwd`.
    pub fn new(
        name: &'a str,
        parent_class: Option<&'a str>,
        declared_pkg: Option<&'a str>,
        root: Option<&'a str>,
        cwd: &'a str,
        include_decl: bool,
        from_uri: &'a str,
        decl_files: &'a [String],
    ) -> (r: Self)
        ensures
            r@ == (RequestView {
                name: name@,
                parent_class: opt_text(parent_class),
                declared_pkg: opt_text(declared_pkg),
                owner_class: None,
                search_root: match root {
                    Some(root) => root@,
                    None => cwd@,
                },
                source_paths: Seq::empty(),
                include_decl,
                from_uri: from_uri@,
                decl_files: texts(decl_files@),
            }),
    {
        let search_root = match root {
            Some(root) => root,
            None => cwd,
        };
        let r = RgSearchRequest {
            name,
            parent_class,
            declared_pkg,
            owner_class: None,
            search_root,
            source_paths: &[],
            include_decl,
            from_uri,
            decl_files,
        };
        assert(r@.source_paths =~= Seq::<Seq<char>>::empty());
        r
    }

    /// The request scoped to the source paths.
    pub fn with_source_paths(self, source_paths: &'a [String]) -> (r: Self)
        ensures
            r@ == (RequestView { source_paths: texts(source_paths@), ..self@ }),
    {
        let mut r = self;
        r.source_paths = source_paths;
        r
    }

    /// The request for a method reached through the owner class.
    pub fn with_owner_class(self, owner_class: &'a str) -> (r: Self)
        ensures
            r@ == (RequestView { owner_class: Some(owner_class@), ..self@ }),
    {
        let mut r = self;
        r.owner_class = Some(owner_class);
        r
    }

    /// A search where the request looks.
    fn scoped(&self) -> (r: RgSearch)
        ensures
            r@ == self@.scope(),
    {
        RgSearch::scoped(self.source_paths, self.search_root)
    }
}

/// The search for the files in the scope that match the pattern.
fn rg_files_with_matches_scoped(pattern: String, request: &RgSearchRequest) -> (r: RgSearch)
    ensures
        r@ == request@.scope().of_files().with(pattern@),
{
    request.scoped().list_files().with_pattern(pattern)
}

/// The search for the word in these files.
fn rg_word_in_files(safe_name: String, files: &[String]) -> (r: RgSearch)
    ensures
        r@ == files_search(texts(files@)).of_words().with(safe_name@),
{
    RgSearch::files(files).word_regexp().with_pattern(safe_name)
}

/// The references that the run of the search found.
fn run_rg_search(search: &RgSearch, output: &RgOutput, request: &RgSearchRequest) -> (r: Vec<
    Location,
>)
    ensures
        location_views(r@) == request@.references(hits_of(output@, search@.parse_root)),
{
    keep_references(search.locations_with_content(output), request)
}

impl ReferenceStage {
    /// The first stage of the request's search.
    pub fn first(request: &RgSearchRequest) -> (r: Self)
        ensures
            r@ == first_stage(request@),
            fits(request@, r@),
    {
        if request.owner_class.is_some() {
            ReferenceStage::OwnerMentions
        } else if request.parent_class.is_some() {
            ReferenceStage::Qualified
        } else if request.declared_pkg.is_some() {
            ReferenceStage::PackageImporters
        } else {
            ReferenceStage::Plain
        }
    }

    /// The run of ripgrep that the stage makes.
    pub fn search(&self, request: &RgSearchRequest) -> (r: RgSearch)
        requires
            fits(request@, self@),
        ensures
            r@ == search_of(request@, self@),
    {
        let patterns = build_rg_patterns(request);
        assert(patterns@.len() == request@.patterns().len());
        assert(forall|i: int| 0 <= i < patterns@.len() ==> #[trigger] patterns@[i]@ == texts(patterns@)[i]);
        match self {
            ReferenceStage::Plain => request.scoped().with_pattern(
                regex_escape(request.name),
            ).word_regexp(),
            ReferenceStage::Qualified => request.scoped().with_pattern(patterns[0].clone()),
            ReferenceStage::Importers(_) => rg_files_with_matches_scoped(
                patterns[1].clone(),
                request,
            ),
            ReferenceStage::PackageImporters => rg_files_with_matches_scoped(
                patterns[0].clone(),
                request,
            ),
            ReferenceStage::PackageMembers(_) => rg_files_with_matches_scoped(
                patterns[1].clone(),
                request,
            ),
            ReferenceStage::OwnerMentions => {
                let mut mention = r"\b".to_owned();
                mention.append(regex_escape(request.owner_class.unwrap()).as_str());
                mention.append(r"\b");
                rg_files_with_matches_scoped(mention, request)
            },
            ReferenceStage::Bare(files) => rg_word_in_files(
                regex_escape(request.name),
                files.as_slice(),
            ),
            ReferenceStage::BareOfParent(_, files) => rg_word_in_files(
                regex_escape(request.name),
                files.as_slice(),
            ),
        }
    }

    /// What follows when the stage's run gave `output`.
    pub fn advance(
        self,
        request: &RgSearchRequest,
        matcher: Option<&IgnoreMatcher>,
        output: &RgOutput,
    ) -> (r: ReferenceStep)
        requires
            fits(request@, self@),
        ensures
            r@ == next_step(request@, matcher, self@, output@),
            r matches ReferenceStep::Next(stage) ==> fits(request@, stage@),
    {
        let search = self.search(request);
        match self {
            ReferenceStage::Plain => {
                let found = run_rg_search(&search, output, request);
                ReferenceStep::Done(filter_locations(found, matcher))
            },
            ReferenceStage::Qualified => ReferenceStep::Next(
                ReferenceStage::Importers(
                    run_rg_search(&search, output, request),
                ),
            ),
            ReferenceStage::Importers(found) => parent_scoped_reference_locations(
                request,
                found,
                search.files_with_matches(output.stdout.as_str()),
                matcher,
            ),
            ReferenceStage::PackageImporters => ReferenceStep::Next(
                ReferenceStage::PackageMembers(search.files_with_matches(output.stdout.as_str())),
            ),
            ReferenceStage::PackageMembers(importers) => package_scoped_reference_locations(
                importers,
                search.files_with_matches(output.stdout.as_str()),
                matcher,
            ),
            ReferenceStage::OwnerMentions => owner_scoped_reference_locations(
                search.files_with_matches(output.stdout.as_str()),
                matcher,
            ),
            ReferenceStage::Bare(_) => {
                let found = run_rg_search(&search, output, request);
                ReferenceStep::Done(filter_locations(found, matcher))
            },
            ReferenceStage::BareOfParent(qualified, _) => {
                let mut found = qualified;
                append_unique_reference_hits(
                    &mut found,
                    search.locations_with_content(output),
                    request,
                );
                ReferenceStep::Done(filter_locations(found, matcher))
            },
        }
    }
}

/// With the references behind the class found, and the files listed that import the name from
/// it: the bare name comes next in those files and in the declaration files of the scope.
fn parent_scoped_reference_locations(
    request: &RgSearchRequest,
    found: Vec<Location>,
    importers: Vec<String>,
    matcher: Option<&IgnoreMatcher>,
) -> (r: ReferenceStep)
    ensures
        r@ == after_importers(request@, matcher, location_views(found@), texts(importers@)),
{
    let mut files = filter_candidate_files(importers, matcher);
    let decl_files = scope_decl_files(request.decl_files, request.source_paths);
    merge_decl_files(&mut files, decl_files.as_slice());
    assert(texts(files@).len() == files@.len());
    if files.len() == 0 {
        ReferenceStep::Done(filter_locations(found, matcher))
    } else {
        ReferenceStep::Next(ReferenceStage::BareOfParent(found, files))
    }
}

/// With the files listed that import the name or belong to the package: the bare name comes
/// next in them.
fn package_scoped_reference_locations(
    importers: Vec<String>,
    members: Vec<String>,
    matcher: Option<&IgnoreMatcher>,
) -> (r: ReferenceStep)
    ensures
        r@ == bare_in(
            extended(texts(importers@), texts(members@)).filter(kept_file(matcher)),
        ),
{
    let mut files = importers;
    extend_unique_files(&mut files, members);
    bare_step(filter_candidate_files(files, matcher))
}

/// With the files listed that mention the owner class: the bare name comes next in them.
///
/// Callers use variable names, so no line is dropped for its qualifier.
fn owner_scoped_reference_locations(
    mentions: Vec<String>,
    matcher: Option<&IgnoreMatcher>,
) -> (r: ReferenceStep)
    ensures
        r@ == bare_in(texts(mentions@).filter(kept_file(matcher))),
{
    bare_step(filter_candidate_files(mentions, matcher))
}

/// The search of the bare name in the files, where there are any files.
fn bare_step(files: Vec<String>) -> (r: ReferenceStep)
    ensures
        r@ == bare_in(texts(files@)),
{
    if files.len() == 0 {
        let none: Vec<Location> = Vec::new();
        assert(location_views(none@) =~= Seq::<LocationView>::empty());
        ReferenceStep::Done(none)
    } else {
        ReferenceStep::Next(ReferenceStage::Bare(files))
    }
}

} // verus!
