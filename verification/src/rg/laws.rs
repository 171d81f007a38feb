//! What holds of every reference search.
use vstd::prelude::*;

use super::ignore::IgnoreMatcher;
use super::references::{
    first_stage, fits, in_scope, kept_file, kept_location, key_of, next_step, runs_left,
    scoped_files, search_of, RequestView, StageView, StepView,
};
use super::pattern::{
    direct_import_pattern, escaped, mention_pattern, package_import_pattern, package_pattern,
    qualified_pattern,
};
use super::search::{files_search, hits_of, HitView, OutputView, SearchView};
use crate::text::{extended, extending_is_a_union};
use crate::types::LocationView;

verus! {

/// The references that the search finds from this stage on, where `world` says what each run
/// of ripgrep gives back.
pub open spec fn outcome(
    request: RequestView,
    matcher: Option<&IgnoreMatcher>,
    stage: StageView,
    world: spec_fn(SearchView) -> OutputView,
) -> Seq<LocationView>
    decreases runs_left(stage),
{
    match next_step(request, matcher, stage, world(search_of(request, stage))) {
        StepView::Done(locs) => locs,
        StepView::Next(next) => if runs_left(next) < runs_left(stage) {
            outcome(request, matcher, next, world)
        } else {
            Seq::empty()
        },
    }
}

/// Every run leaves fewer to come, so a reference search makes at most three.
pub proof fn reference_search_ends(
    request: RequestView,
    matcher: Option<&IgnoreMatcher>,
    stage: StageView,
    output: OutputView,
)
    requires
        fits(request, stage),
    ensures
        fits(request, first_stage(request)),
        1 <= runs_left(first_stage(request)) <= 3,
        next_step(request, matcher, stage, output) matches StepView::Next(next) ==> runs_left(next)
            < runs_left(stage) && fits(request, next),
{
}

proof fn lemma_filtered<A>(s: Seq<A>, p: spec_fn(A) -> bool)
    ensures
        forall|x: A| #[trigger] s.filter(p).contains(x) ==> p(x) && s.contains(x),
{
    assert forall|x: A| #[trigger] s.filter(p).contains(x) implies p(x) && s.contains(x) by {
        let i = choose|i: int| 0 <= i < s.filter(p).len() && s.filter(p)[i] == x;
        s.lemma_filter_pred(p, i);
        s.lemma_filter_contains_rev(p, x);
    }
}

/// No reference lies in a file that the ignore patterns exclude.
pub proof fn references_lie_in_kept_files(
    request: RequestView,
    matcher: Option<&IgnoreMatcher>,
    stage: StageView,
    world: spec_fn(SearchView) -> OutputView,
    l: LocationView,
)
    requires
        outcome(request, matcher, stage, world).contains(l),
    ensures
        (kept_location(matcher))(l),
    decreases runs_left(stage),
{
    let output = world(search_of(request, stage));
    let hits = hits_of(output, search_of(request, stage).parse_root);
    match next_step(request, matcher, stage, output) {
        StepView::Done(locs) => {
            lemma_filtered(request.references(hits), kept_location(matcher));
            match stage {
                StageView::Importers(found) => {
                    lemma_filtered(found, kept_location(matcher));
                },
                StageView::BareOfParent(found, _) => {
                    lemma_filtered(request.appended(found, hits), kept_location(matcher));
                },
                _ => {},
            }
        },
        StepView::Next(next) => {
            if runs_left(next) < runs_left(stage) {
                references_lie_in_kept_files(request, matcher, next, world, l);
            }
        },
    }
}

/// Some run of the search prints a line at `l` that is a reference.
pub open spec fn reported(
    request: RequestView,
    world: spec_fn(SearchView) -> OutputView,
    l: LocationView,
) -> bool {
    exists|search: SearchView, h: HitView| #[trigger]
        hits_of(world(search), search.parse_root).contains(h) && h.location == l
            && !request.skips(h)
}

proof fn lemma_references(request: RequestView, hits: Seq<HitView>, l: LocationView)
    requires
        request.references(hits).contains(l),
    ensures
        exists|h: HitView| #[trigger] hits.contains(h) && h.location == l && !request.skips(h),
{
    let kept = hits.filter(request.takes());
    lemma_filtered(hits, request.takes());
    let i = choose|i: int|
        0 <= i < request.references(hits).len() && request.references(hits)[i] == l;
    let h = kept[i];
    assert(kept.contains(h));
    assert(hits.contains(h) && h.location == l && !request.skips(h));
}

proof fn lemma_appended(
    request: RequestView,
    locs: Seq<LocationView>,
    hits: Seq<HitView>,
    l: LocationView,
)
    requires
        request.appended(locs, hits).contains(l),
    ensures
        locs.contains(l) || exists|h: HitView| #[trigger]
            hits.contains(h) && h.location == l && !request.skips(h) && !request.of_other_class(h),
    decreases hits.len(),
{
    if hits.len() > 0 {
        let before = request.appended(locs, hits.drop_last());
        let h = hits.last();
        assert(hits.contains(h)) by {
            assert(hits[hits.len() - 1] == h);
        }
        if before.contains(l) {
            lemma_appended(request, locs, hits.drop_last(), l);
            if !locs.contains(l) {
                let g = choose|g: HitView| #[trigger]
                    hits.drop_last().contains(g) && g.location == l && !request.skips(g)
                        && !request.of_other_class(g);
                let k = choose|k: int|
                    0 <= k < hits.drop_last().len() && hits.drop_last()[k] == g;
                assert(hits[k] == g);
                assert(hits.contains(g));
            }
        } else {
            let all = request.appended(locs, hits);
            let i = choose|i: int| 0 <= i < all.len() && all[i] == l;
            if i < before.len() {
                assert(before[i] == l);
            }
            assert(h.location == l);
        }
    }
}

proof fn lemma_reported_from(
    request: RequestView,
    matcher: Option<&IgnoreMatcher>,
    stage: StageView,
    world: spec_fn(SearchView) -> OutputView,
    l: LocationView,
)
    requires
        outcome(request, matcher, stage, world).contains(l),
        match stage {
            StageView::Importers(found) => forall|x: LocationView| #[trigger]
                found.contains(x) ==> reported(request, world, x),
            StageView::BareOfParent(found, _) => forall|x: LocationView| #[trigger]
                found.contains(x) ==> reported(request, world, x),
            _ => true,
        },
    ensures
        reported(request, world, l),
    decreases runs_left(stage),
{
    let search = search_of(request, stage);
    let output = world(search);
    let hits = hits_of(output, search.parse_root);
    match next_step(request, matcher, stage, output) {
        StepView::Done(locs) => {
            lemma_filtered(request.references(hits), kept_location(matcher));
            match stage {
                StageView::Importers(found) => {
                    lemma_filtered(found, kept_location(matcher));
                },
                StageView::BareOfParent(found, _) => {
                    lemma_filtered(request.appended(found, hits), kept_location(matcher));
                    lemma_appended(request, found, hits, l);
                },
                StageView::Plain => {
                    lemma_references(request, hits, l);
                },
                StageView::Bare(_) => {
                    lemma_references(request, hits, l);
                },
                _ => {},
            }
        },
        StepView::Next(next) => {
            if runs_left(next) < runs_left(stage) {
                if stage is Qualified {
                    let found = request.references(hits);
                    assert forall|x: LocationView| #[trigger] found.contains(x) implies reported(
                        request,
                        world,
                        x,
                    ) by {
                        lemma_references(request, hits, x);
                    }
                }
                lemma_reported_from(request, matcher, next, world, l);
            }
        },
    }
}

/// Every reference is the place of a line that some run printed and that is neither an import,
/// nor a package declaration, nor, where declarations are not wanted, a declaration in the
/// file the request comes from.
pub proof fn references_are_reported(
    request: RequestView,
    matcher: Option<&IgnoreMatcher>,
    world: spec_fn(SearchView) -> OutputView,
    l: LocationView,
)
    requires
        outcome(request, matcher, first_stage(request), world).contains(l),
    ensures
        reported(request, world, l),
{
    lemma_reported_from(request, matcher, first_stage(request), world, l);
}

/// Adding bare hits keeps what was found, and adds no second location with a key already
/// there.
pub proof fn appended_keys_are_new(
    request: RequestView,
    locs: Seq<LocationView>,
    hits: Seq<HitView>,
)
    ensures
        locs.is_prefix_of(request.appended(locs, hits)),
        forall|i: int, j: int|
            0 <= i < j < request.appended(locs, hits).len() && locs.len() <= j ==> key_of(
                #[trigger] request.appended(locs, hits)[i],
            ) != key_of(#[trigger] request.appended(locs, hits)[j]),
    decreases hits.len(),
{
    if hits.len() > 0 {
        appended_keys_are_new(request, locs, hits.drop_last());
    }
}

/// A line that names the symbol of another class adds no location: what is added comes from
/// lines that do not.
pub proof fn added_lines_are_of_the_class(
    request: RequestView,
    locs: Seq<LocationView>,
    hits: Seq<HitView>,
    l: LocationView,
)
    requires
        request.appended(locs, hits).contains(l),
        !locs.contains(l),
    ensures
        exists|h: HitView| #[trigger]
            hits.contains(h) && h.location == l && !request.skips(h) && !request.of_other_class(h),
{
    lemma_appended(request, locs, hits, l);
}

/// The files searched for the bare name are no excluded ones, except declaration files; and
/// where source paths scope the search, those lie below one of them.
pub proof fn searched_files_are_kept(
    request: RequestView,
    matcher: Option<&IgnoreMatcher>,
    stage: StageView,
    output: OutputView,
    file: Seq<char>,
)
    ensures
        match next_step(request, matcher, stage, output) {
            StepView::Next(StageView::Bare(files)) => files.contains(file) ==> (kept_file(matcher))(
                file,
            ),
            StepView::Next(StageView::BareOfParent(_, files)) => files.contains(file) ==> (
            kept_file(matcher))(file) || (request.decl_files.contains(file) && (
            request.source_paths.len() > 0 ==> (in_scope(request.source_paths))(file))),
            _ => true,
        },
{
    let listed = search_of(request, stage).listed(output.stdout);
    lemma_filtered(listed, kept_file(matcher));
    match stage {
        StageView::PackageMembers(files) => {
            lemma_filtered(extended(files, listed), kept_file(matcher));
        },
        StageView::Importers(_) => {
            let scoped = scoped_files(request.decl_files, request.source_paths);
            extending_is_a_union(listed.filter(kept_file(matcher)), scoped);
            lemma_filtered(request.decl_files, in_scope(request.source_paths));
        },
        _ => {},
    }
}

/// Of a name with neither class nor package, the references are those of one run for the
/// whole word.
pub proof fn plain_references(
    request: RequestView,
    matcher: Option<&IgnoreMatcher>,
    world: spec_fn(SearchView) -> OutputView,
)
    requires
        request.owner_class is None,
        request.parent_class is None,
        request.declared_pkg is None,
    ensures
        ({
            let search = request.scope().with(escaped(request.name)).of_words();
            outcome(request, matcher, first_stage(request), world) == request.references(
                hits_of(world(search), search.parse_root),
            ).filter(kept_location(matcher))
        }),
{
}

/// The references of the bare name in the files; none where there are no files.
pub open spec fn bare_references(
    request: RequestView,
    matcher: Option<&IgnoreMatcher>,
    files: Seq<Seq<char>>,
    world: spec_fn(SearchView) -> OutputView,
) -> Seq<LocationView> {
    let search = files_search(files).of_words().with(escaped(request.name));
    if files.len() == 0 {
        Seq::empty()
    } else {
        request.references(hits_of(world(search), search.parse_root)).filter(
            kept_location(matcher),
        )
    }
}

/// Of a method reached through an owner class, the references are those of the bare name in
/// the files that mention the owner and are not excluded.
pub proof fn owner_references(
    request: RequestView,
    matcher: Option<&IgnoreMatcher>,
    world: spec_fn(SearchView) -> OutputView,
)
    requires
        request.owner_class is Some,
    ensures
        ({
            let search = request.scope().of_files().with(mention_pattern(request.owner_class->0));
            let files = search.listed(world(search).stdout).filter(kept_file(matcher));
            outcome(request, matcher, first_stage(request), world) == bare_references(
                request,
                matcher,
                files,
                world,
            )
        }),
{
    reveal_with_fuel(outcome, 3);
}

/// Of a name of a package, the references are those of the bare name in the files that import
/// it or belong to the package, each once, and are not excluded.
pub proof fn package_references(
    request: RequestView,
    matcher: Option<&IgnoreMatcher>,
    world: spec_fn(SearchView) -> OutputView,
)
    requires
        request.owner_class is None,
        request.parent_class is None,
        request.declared_pkg is Some,
    ensures
        ({
            let package = request.declared_pkg->0;
            let importers = request.scope().of_files().with(
                package_import_pattern(package, request.name),
            );
            let members = request.scope().of_files().with(package_pattern(package));
            let files = extended(
                importers.listed(world(importers).stdout),
                members.listed(world(members).stdout),
            ).filter(kept_file(matcher));
            outcome(request, matcher, first_stage(request), world) == bare_references(
                request,
                matcher,
                files,
                world,
            )
        }),
{
    reveal_with_fuel(outcome, 4);
}

/// Of a name of a class, the references are those behind the class, and those of the bare name
/// in the files that import it from the class or declare it, without repeats and without lines
/// that name another class's.
pub proof fn class_references(
    request: RequestView,
    matcher: Option<&IgnoreMatcher>,
    world: spec_fn(SearchView) -> OutputView,
)
    requires
        request.owner_class is None,
        request.parent_class is Some,
    ensures
        ({
            let parent = request.parent_class->0;
            let qualified = request.scope().with(qualified_pattern(parent, request.name));
            let importers = request.scope().of_files().with(
                direct_import_pattern(parent, request.name),
            );
            let found = request.references(hits_of(world(qualified), qualified.parse_root));
            let files = extended(
                importers.listed(world(importers).stdout).filter(kept_file(matcher)),
                scoped_files(request.decl_files, request.source_paths),
            );
            let bare = files_search(files).of_words().with(escaped(request.name));
            outcome(request, matcher, first_stage(request), world) == (if files.len() == 0 {
                found
            } else {
                request.appended(found, hits_of(world(bare), bare.parse_root))
            }).filter(kept_location(matcher))
        }),
{
    reveal_with_fuel(outcome, 4);
}

} // verus!
