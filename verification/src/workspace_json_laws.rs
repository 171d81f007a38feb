//! What holds of the source roots that a `workspace.json` names.
use vstd::prelude::*;

use crate::path::same_path;
use crate::text::{replace_all, texts};
use crate::workspace_json::{
    indexed_type, library_paths, names_path, source_roots, substituted, with_content_roots,
    with_modules, with_root, with_roots, ContentRootData, ModuleData, SourceRootData,
    WorkspaceJson, SOURCE_TYPES, WORKSPACE_PLACEHOLDER,
};

verus! {

/// The source root holds production or test sources.
pub open spec fn holds_sources(source_root: SourceRootData) -> bool {
    source_root.root_type@ == "java-source"@ || source_root.root_type@ == "java-test"@
}

/// The path of the source root, below the workspace root.
pub open spec fn path_of(source_root: SourceRootData, root: Seq<char>) -> Seq<char> {
    replace_all(source_root.path@, "<WORKSPACE>"@, root)
}

/// One of the paths is that of the source root.
pub open spec fn lists(paths: Seq<Seq<char>>, source_root: SourceRootData, root: Seq<char>) -> bool {
    exists|k: int| 0 <= k < paths.len() && same_path(#[trigger] paths[k], path_of(source_root, root))
}

proof fn lemma_indexed(source_root: SourceRootData)
    ensures
        indexed_type(source_root.root_type@) <==> holds_sources(source_root),
{
    assert(SOURCE_TYPES@[0]@ == "java-source"@);
    assert(SOURCE_TYPES@[1]@ == "java-test"@);
}

/// What adding source roots to a list of paths does.
pub open spec fn adds(
    paths: Seq<Seq<char>>,
    result: Seq<Seq<char>>,
    source_roots: Seq<SourceRootData>,
    root: Seq<char>,
) -> bool {
    &&& paths.is_prefix_of(result)
    &&& forall|i: int|
        0 <= i < source_roots.len() && holds_sources(#[trigger] source_roots[i]) ==> lists(
            result,
            source_roots[i],
            root,
        )
    &&& forall|k: int|
        paths.len() <= k < result.len() ==> exists|i: int|
            0 <= i < source_roots.len() && holds_sources(#[trigger] source_roots[i])
                && #[trigger] result[k] == path_of(source_roots[i], root)
}

proof fn lemma_lists_longer(
    a: Seq<Seq<char>>,
    b: Seq<Seq<char>>,
    source_root: SourceRootData,
    root: Seq<char>,
)
    requires
        a.is_prefix_of(b),
        lists(a, source_root, root),
    ensures
        lists(b, source_root, root),
{
    let k = choose|k: int|
        0 <= k < a.len() && same_path(#[trigger] a[k], path_of(source_root, root));
    assert(b.subrange(0, a.len() as int)[k] == b[k]);
    assert(same_path(b[k], path_of(source_root, root)));
}

proof fn lemma_with_roots(paths: Seq<Seq<char>>, roots: Seq<SourceRootData>, root: Seq<char>)
    ensures
        adds(paths, with_roots(paths, roots, root), roots, root),
    decreases roots.len(),
{
    if roots.len() == 0 {
        assert(paths.subrange(0, paths.len() as int) =~= paths);
    } else {
        let d = roots.drop_last();
        let last = roots.last();
        let before = with_roots(paths, d, root);
        let result = with_roots(paths, roots, root);
        lemma_with_roots(paths, d, root);
        lemma_indexed(last);
        assert(substituted(last.path@, root) == path_of(last, root));
        assert(result == with_root(before, last, root));
        assert(before.is_prefix_of(result));
        assert(result.subrange(0, paths.len() as int) =~= before.subrange(0, paths.len() as int));
        assert forall|i: int| 0 <= i < roots.len() && holds_sources(#[trigger] roots[i]) implies lists(
            result,
            roots[i],
            root,
        ) by {
            if i < d.len() {
                assert(d[i] == roots[i]);
                lemma_lists_longer(before, result, roots[i], root);
            } else if names_path(before, path_of(last, root)) {
                assert(lists(before, last, root));
                lemma_lists_longer(before, result, last, root);
            } else {
                assert(same_path(result[before.len() as int], path_of(last, root)));
            }
        }
        assert forall|k: int| paths.len() <= k < result.len() implies exists|i: int|
            0 <= i < roots.len() && holds_sources(#[trigger] roots[i]) && #[trigger] result[k]
                == path_of(roots[i], root) by {
            if k < before.len() {
                assert(before[k] == result[k]);
                let i = choose|i: int|
                    0 <= i < d.len() && holds_sources(#[trigger] d[i]) && before[k] == path_of(
                        d[i],
                        root,
                    );
                assert(roots[i] == d[i]);
            } else {
                assert(roots[roots.len() - 1] == last);
            }
        }
    }
}

/// Source root `i` of content root `c` of module `m`.
pub open spec fn source_root_at(modules: Seq<ModuleData>, m: int, c: int, i: int) -> SourceRootData {
    modules[m].content_roots@[c].source_roots@[i]
}

/// There is a source root of that number.
pub open spec fn has_source_root(modules: Seq<ModuleData>, m: int, c: int, i: int) -> bool {
    0 <= m < modules.len() && 0 <= c < modules[m].content_roots@.len() && 0 <= i
        < modules[m].content_roots@[c].source_roots@.len()
}

proof fn lemma_with_content_roots(
    paths: Seq<Seq<char>>,
    roots: Seq<ContentRootData>,
    root: Seq<char>,
)
    ensures
        paths.is_prefix_of(with_content_roots(paths, roots, root)),
        forall|c: int, i: int|
            #![trigger roots[c].source_roots@[i]]
            0 <= c < roots.len() && 0 <= i < roots[c].source_roots@.len() && holds_sources(
                roots[c].source_roots@[i],
            ) ==> lists(with_content_roots(paths, roots, root), roots[c].source_roots@[i], root),
        forall|k: int|
            paths.len() <= k < with_content_roots(paths, roots, root).len() ==> exists|
                c: int,
                i: int,
            |
                #![trigger roots[c].source_roots@[i]]
                0 <= c < roots.len() && 0 <= i < roots[c].source_roots@.len() && holds_sources(
                    roots[c].source_roots@[i],
                ) && #[trigger] with_content_roots(paths, roots, root)[k] == path_of(
                    roots[c].source_roots@[i],
                    root,
                ),
    decreases roots.len(),
{
    let result = with_content_roots(paths, roots, root);
    if roots.len() == 0 {
        assert(paths.subrange(0, paths.len() as int) =~= paths);
    } else {
        let d = roots.drop_last();
        let last = roots.last().source_roots@;
        let before = with_content_roots(paths, d, root);
        lemma_with_content_roots(paths, d, root);
        lemma_with_roots(before, last, root);
        assert(result == with_roots(before, last, root));
        assert(result.subrange(0, paths.len() as int) =~= before.subrange(0, paths.len() as int)) by {
            assert(result.subrange(0, before.len() as int) =~= before);
            assert forall|k: int| 0 <= k < paths.len() implies result[k] == before[k] by {
                assert(result.subrange(0, before.len() as int)[k] == before[k]);
            }
        }
        assert forall|c: int, i: int|
            #![trigger roots[c].source_roots@[i]]
            0 <= c < roots.len() && 0 <= i < roots[c].source_roots@.len() && holds_sources(
                roots[c].source_roots@[i],
            ) implies lists(result, roots[c].source_roots@[i], root) by {
            if c < d.len() {
                assert(d[c] == roots[c]);
                assert(lists(before, d[c].source_roots@[i], root));
                lemma_lists_longer(before, result, roots[c].source_roots@[i], root);
            } else {
                assert(last[i] == roots[c].source_roots@[i]);
            }
        }
        assert forall|k: int| paths.len() <= k < result.len() implies exists|c: int, i: int|
            #![trigger roots[c].source_roots@[i]]
            0 <= c < roots.len() && 0 <= i < roots[c].source_roots@.len() && holds_sources(
                roots[c].source_roots@[i],
            ) && #[trigger] result[k] == path_of(roots[c].source_roots@[i], root) by {
            if k < before.len() {
                assert(result.subrange(0, before.len() as int)[k] == result[k]);
                assert(before[k] == result[k]);
                let (c, i) = choose|c: int, i: int|
                    #![trigger d[c].source_roots@[i]]
                    0 <= c < d.len() && 0 <= i < d[c].source_roots@.len() && holds_sources(
                        d[c].source_roots@[i],
                    ) && before[k] == path_of(d[c].source_roots@[i], root);
                assert(roots[c].source_roots@[i] == d[c].source_roots@[i]);
            } else {
                let i = choose|i: int|
                    0 <= i < last.len() && holds_sources(#[trigger] last[i]) && result[k]
                        == path_of(last[i], root);
                let c = roots.len() - 1;
                assert(roots[c].source_roots@[i] == last[i]);
            }
        }
    }
}

/// The path is that of a source root of some module that holds sources.
pub open spec fn is_source_root(modules: Seq<ModuleData>, root: Seq<char>, path: Seq<char>) -> bool {
    exists|m: int, c: int, i: int|
        #![trigger source_root_at(modules, m, c, i)]
        has_source_root(modules, m, c, i) && holds_sources(source_root_at(modules, m, c, i))
            && path == path_of(source_root_at(modules, m, c, i), root)
}

proof fn lemma_with_modules(paths: Seq<Seq<char>>, modules: Seq<ModuleData>, root: Seq<char>)
    ensures
        paths.is_prefix_of(with_modules(paths, modules, root)),
        forall|m: int, c: int, i: int|
            #![trigger source_root_at(modules, m, c, i)]
            has_source_root(modules, m, c, i) && holds_sources(source_root_at(modules, m, c, i))
                ==> lists(
                with_modules(paths, modules, root),
                source_root_at(modules, m, c, i),
                root,
            ),
        forall|k: int|
            paths.len() <= k < with_modules(paths, modules, root).len() ==> is_source_root(
                modules,
                root,
                #[trigger] with_modules(paths, modules, root)[k],
            ),
    decreases modules.len(),
{
    let result = with_modules(paths, modules, root);
    if modules.len() == 0 {
        assert(paths.subrange(0, paths.len() as int) =~= paths);
    } else {
        let d = modules.drop_last();
        let last = modules.last().content_roots@;
        let before = with_modules(paths, d, root);
        lemma_with_modules(paths, d, root);
        lemma_with_content_roots(before, last, root);
        assert(result == with_content_roots(before, last, root));
        assert(result.subrange(0, paths.len() as int) =~= before.subrange(0, paths.len() as int)) by {
            assert forall|k: int| 0 <= k < paths.len() implies result[k] == before[k] by {
                assert(result.subrange(0, before.len() as int)[k] == before[k]);
            }
        }
        assert forall|m: int, c: int, i: int|
            #![trigger source_root_at(modules, m, c, i)]
            has_source_root(modules, m, c, i) && holds_sources(
                source_root_at(modules, m, c, i),
            ) implies lists(result, source_root_at(modules, m, c, i), root) by {
            if m < d.len() {
                assert(source_root_at(d, m, c, i) == source_root_at(modules, m, c, i));
                assert(has_source_root(d, m, c, i));
                lemma_lists_longer(before, result, source_root_at(modules, m, c, i), root);
            } else {
                assert(last[c].source_roots@[i] == source_root_at(modules, m, c, i));
            }
        }
        assert forall|k: int| paths.len() <= k < result.len() implies is_source_root(
            modules,
            root,
            #[trigger] result[k],
        ) by {
            if k < before.len() {
                assert(result.subrange(0, before.len() as int)[k] == result[k]);
                assert(before[k] == result[k]);
                assert(is_source_root(d, root, before[k]));
                let (m, c, i) = choose|m: int, c: int, i: int|
                    #![trigger source_root_at(d, m, c, i)]
                    has_source_root(d, m, c, i) && holds_sources(source_root_at(d, m, c, i))
                        && before[k] == path_of(source_root_at(d, m, c, i), root);
                assert(source_root_at(modules, m, c, i) == source_root_at(d, m, c, i));
                assert(has_source_root(modules, m, c, i));
            } else {
                let (c, i) = choose|c: int, i: int|
                    #![trigger last[c].source_roots@[i]]
                    0 <= c < last.len() && 0 <= i < last[c].source_roots@.len() && holds_sources(
                        last[c].source_roots@[i],
                    ) && result[k] == path_of(last[c].source_roots@[i], root);
                let m = modules.len() - 1;
                assert(source_root_at(modules, m, c, i) == last[c].source_roots@[i]);
                assert(has_source_root(modules, m, c, i));
            }
        }
    }
}

/// Every source root of every module and content root that holds production or test sources is
/// listed, with the workspace root in place of `<WORKSPACE>`.
pub proof fn every_source_root_is_listed(
    data: WorkspaceJson,
    root: Seq<char>,
    m: int,
    c: int,
    i: int,
)
    requires
        0 <= m < data.modules@.len(),
        0 <= c < data.modules@[m].content_roots@.len(),
        0 <= i < data.modules@[m].content_roots@[c].source_roots@.len(),
        data.modules@[m].content_roots@[c].source_roots@[i].root_type@ == "java-source"@
            || data.modules@[m].content_roots@[c].source_roots@[i].root_type@ == "java-test"@,
    ensures
        exists|k: int|
            0 <= k < source_roots(data, root).len() && same_path(
                #[trigger] source_roots(data, root)[k],
                replace_all(
                    data.modules@[m].content_roots@[c].source_roots@[i].path@,
                    "<WORKSPACE>"@,
                    root,
                ),
            ),
{
    lemma_with_modules(Seq::empty(), data.modules@, root);
    let source_root = source_root_at(data.modules@, m, c, i);
    assert(has_source_root(data.modules@, m, c, i) && holds_sources(source_root));
    assert(lists(source_roots(data, root), source_root, root));
}

/// Every listed path is that of a source root of some module that holds production or test
/// sources.
pub proof fn listed_paths_are_source_roots(data: WorkspaceJson, root: Seq<char>, k: int)
    requires
        0 <= k < source_roots(data, root).len(),
    ensures
        exists|m: int, c: int, i: int|
            #![trigger data.modules@[m].content_roots@[c].source_roots@[i]]
            0 <= m < data.modules@.len() && 0 <= c < data.modules@[m].content_roots@.len() && 0 <= i
                < data.modules@[m].content_roots@[c].source_roots@.len() && (
            data.modules@[m].content_roots@[c].source_roots@[i].root_type@ == "java-source"@
                || data.modules@[m].content_roots@[c].source_roots@[i].root_type@ == "java-test"@)
                && source_roots(data, root)[k] == replace_all(
                data.modules@[m].content_roots@[c].source_roots@[i].path@,
                "<WORKSPACE>"@,
                root,
            ),
{
    lemma_with_modules(Seq::empty(), data.modules@, root);
    assert(is_source_root(data.modules@, root, source_roots(data, root)[k]));
    let (m, c, i) = choose|m: int, c: int, i: int|
        #![trigger source_root_at(data.modules@, m, c, i)]
        has_source_root(data.modules@, m, c, i) && holds_sources(
            source_root_at(data.modules@, m, c, i),
        ) && source_roots(data, root)[k] == path_of(source_root_at(data.modules@, m, c, i), root);
    assert(data.modules@[m].content_roots@[c].source_roots@[i] == source_root_at(
        data.modules@,
        m,
        c,
        i,
    ));
}

/// Modules that are added behind others add their source roots behind those of the others.
pub proof fn later_modules_come_later(data: WorkspaceJson, earlier: WorkspaceJson, root: Seq<char>)
    requires
        earlier.modules@.is_prefix_of(data.modules@),
    ensures
        source_roots(earlier, root).is_prefix_of(source_roots(data, root)),
    decreases data.modules@.len(),
{
    lemma_modules_prefix(earlier.modules@, data.modules@, root);
}

proof fn lemma_modules_prefix(a: Seq<ModuleData>, b: Seq<ModuleData>, root: Seq<char>)
    requires
        a.is_prefix_of(b),
    ensures
        with_modules(Seq::empty(), a, root).is_prefix_of(with_modules(Seq::empty(), b, root)),
    decreases b.len(),
{
    let none = Seq::<Seq<char>>::empty();
    if a.len() == b.len() {
        assert(a =~= b.subrange(0, a.len() as int));
        assert(b.subrange(0, a.len() as int) =~= b);
        let r = with_modules(none, b, root);
        assert(r.subrange(0, r.len() as int) =~= r);
    } else {
        let d = b.drop_last();
        assert(d.subrange(0, a.len() as int) =~= b.subrange(0, a.len() as int));
        lemma_modules_prefix(a, d, root);
        let x = with_modules(none, a, root);
        let y = with_modules(none, d, root);
        let z = with_modules(none, b, root);
        lemma_with_content_roots(y, b.last().content_roots@, root);
        assert(y.is_prefix_of(z));
        assert forall|k: int| 0 <= k < x.len() implies x[k] == z[k] by {
            assert(y.subrange(0, x.len() as int)[k] == y[k]);
            assert(z.subrange(0, y.len() as int)[k] == z[k]);
        }
        assert(z.subrange(0, x.len() as int) =~= x);
    }
}

/// The library directories of the file are those it names, each with the workspace root in
/// place of `<WORKSPACE>`, in their order; where the file says nothing of them, there are none.
pub proof fn named_libraries_are_listed(data: WorkspaceJson, root: Seq<char>)
    ensures
        library_paths(data, root) is Some <==> data.source_paths is Some,
        data.source_paths matches Some(paths) ==> library_paths(data, root)->0.len() == paths@.len()
            && forall|i: int|
            0 <= i < paths@.len() ==> #[trigger] library_paths(data, root)->0[i] == replace_all(
                paths@[i]@,
                "<WORKSPACE>"@,
                root,
            ),
{
    assert(WORKSPACE_PLACEHOLDER@ == "<WORKSPACE>"@);
    match data.source_paths {
        Some(paths) => {
            assert(texts(paths@).len() == paths@.len());
        },
        None => {},
    }
}

} // verus!
