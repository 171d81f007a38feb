//! Source roots from `workspace.json`.
//!
//! The file describes project structure: modules, content roots, source directories. Every
//! source root that holds no resources is taken, so that the indexer covers them without
//! `sourcePaths` being configured. `<WORKSPACE>` in a path stands for the workspace root.
use vstd::prelude::*;

use crate::path::{same, same_path};
use crate::text::{chars_of, eq_str, replace_all, replaced, string_of, texts};

verus! {

/// The types of source root that are indexed: production and test sources.
pub const SOURCE_TYPES: [&'static str; 2] = ["java-source", "java-test"];

/// What stands for the workspace root in a path.
pub const WORKSPACE_PLACEHOLDER: &'static str = "<WORKSPACE>";

/// The content of `workspace.json`.
#[derive(Debug, Clone)]
pub struct WorkspaceJson {
    pub modules: Vec<ModuleData>,
    /// Library source directories; where they are given, they replace the default ones.
    pub source_paths: Option<Vec<String>>,
}

#[derive(Debug, Clone)]
pub struct ModuleData {
    pub content_roots: Vec<ContentRootData>,
}

#[derive(Debug, Clone)]
pub struct ContentRootData {
    pub source_roots: Vec<SourceRootData>,
}

#[derive(Debug, Clone)]
pub struct SourceRootData {
    pub path: String,
    pub root_type: String,
}

/// The type is one that is indexed.
pub open spec fn indexed_type(root_type: Seq<char>) -> bool {
    exists|i: int| 0 <= i < 2 && #[trigger] SOURCE_TYPES@[i]@ == root_type
}

/// The path with the workspace root in place of the placeholder.
pub open spec fn substituted(path: Seq<char>, root: Seq<char>) -> Seq<char> {
    replace_all(path, WORKSPACE_PLACEHOLDER@, root)
}

/// One of the paths names the same path as `p`.
pub open spec fn names_path(paths: Seq<Seq<char>>, p: Seq<char>) -> bool {
    exists|i: int| 0 <= i < paths.len() && same_path(#[trigger] paths[i], p)
}

/// The paths with that of the source root, where it is indexed and not yet there.
pub open spec fn with_root(
    paths: Seq<Seq<char>>,
    source_root: SourceRootData,
    root: Seq<char>,
) -> Seq<Seq<char>> {
    let p = substituted(source_root.path@, root);
    if !indexed_type(source_root.root_type@) || names_path(paths, p) {
        paths
    } else {
        paths.push(p)
    }
}

/// The paths with those of the source roots.
pub open spec fn with_roots(
    paths: Seq<Seq<char>>,
    source_roots: Seq<SourceRootData>,
    root: Seq<char>,
) -> Seq<Seq<char>>
    decreases source_roots.len(),
{
    if source_roots.len() == 0 {
        paths
    } else {
        with_root(with_roots(paths, source_roots.drop_last(), root), source_roots.last(), root)
    }
}

/// The paths with those of the content roots.
pub open spec fn with_content_roots(
    paths: Seq<Seq<char>>,
    content_roots: Seq<ContentRootData>,
    root: Seq<char>,
) -> Seq<Seq<char>>
    decreases content_roots.len(),
{
    if content_roots.len() == 0 {
        paths
    } else {
        with_roots(
            with_content_roots(paths, content_roots.drop_last(), root),
            content_roots.last().source_roots@,
            root,
        )
    }
}

/// The paths with those of the modules.
pub open spec fn with_modules(
    paths: Seq<Seq<char>>,
    modules: Seq<ModuleData>,
    root: Seq<char>,
) -> Seq<Seq<char>>
    decreases modules.len(),
{
    if modules.len() == 0 {
        paths
    } else {
        with_content_roots(
            with_modules(paths, modules.drop_last(), root),
            modules.last().content_roots@,
            root,
        )
    }
}

/// The source roots of the workspace, in order, each once.
pub open spec fn source_roots(data: WorkspaceJson, root: Seq<char>) -> Seq<Seq<char>> {
    with_modules(Seq::empty(), data.modules@, root)
}

/// No two of the paths name the same path.
pub open spec fn distinct_paths(paths: Seq<Seq<char>>) -> bool {
    forall|i: int, j: int|
        0 <= i < j < paths.len() ==> !same_path(#[trigger] paths[i], #[trigger] paths[j])
}

proof fn lemma_distinct_roots(
    paths: Seq<Seq<char>>,
    source_roots: Seq<SourceRootData>,
    root: Seq<char>,
)
    requires
        distinct_paths(paths),
    ensures
        distinct_paths(with_roots(paths, source_roots, root)),
    decreases source_roots.len(),
{
    if source_roots.len() > 0 {
        lemma_distinct_roots(paths, source_roots.drop_last(), root);
    }
}

proof fn lemma_distinct_content_roots(
    paths: Seq<Seq<char>>,
    content_roots: Seq<ContentRootData>,
    root: Seq<char>,
)
    requires
        distinct_paths(paths),
    ensures
        distinct_paths(with_content_roots(paths, content_roots, root)),
    decreases content_roots.len(),
{
    if content_roots.len() > 0 {
        lemma_distinct_content_roots(paths, content_roots.drop_last(), root);
        lemma_distinct_roots(
            with_content_roots(paths, content_roots.drop_last(), root),
            content_roots.last().source_roots@,
            root,
        );
    }
}

proof fn lemma_distinct_modules(paths: Seq<Seq<char>>, modules: Seq<ModuleData>, root: Seq<char>)
    requires
        distinct_paths(paths),
    ensures
        distinct_paths(with_modules(paths, modules, root)),
    decreases modules.len(),
{
    if modules.len() > 0 {
        lemma_distinct_modules(paths, modules.drop_last(), root);
        lemma_distinct_content_roots(
            with_modules(paths, modules.drop_last(), root),
            modules.last().content_roots@,
            root,
        );
    }
}

/// No source root is listed twice, however many modules name it.
pub proof fn source_roots_are_distinct(data: WorkspaceJson, root: Seq<char>)
    ensures
        distinct_paths(source_roots(data, root)),
{
    lemma_distinct_modules(Seq::empty(), data.modules@, root);
}

/// Whether the type is one that is indexed.
fn is_indexed_type(root_type: &str) -> (r: bool)
    ensures
        r == indexed_type(root_type@),
{
    for i in 0..2
        invariant
            forall|j: int| 0 <= j < i ==> #[trigger] SOURCE_TYPES@[j]@ != root_type@,
    {
        if eq_str(SOURCE_TYPES[i], root_type) {
            return true;
        }
    }
    false
}

/// The path with the workspace root in place of the placeholder.
pub fn substitute(path: &str, root: &str) -> (r: String)
    ensures
        r@ == substituted(path@, root@),
{
    let from = chars_of(WORKSPACE_PLACEHOLDER);
    proof {
        reveal_strlit("<WORKSPACE>");
    }
    string_of(
        replaced(
            chars_of(path).as_slice(),
            from.as_slice(),
            chars_of(root).as_slice(),
        ).as_slice(),
    )
}

/// Whether one of the paths names the same path as `p`.
fn is_named(paths: &Vec<String>, p: &str) -> (r: bool)
    ensures
        r == names_path(texts(paths@), p@),
{
    for i in 0..paths.len()
        invariant
            forall|j: int| 0 <= j < i ==> !same_path(#[trigger] texts(paths@)[j], p@),
    {
        if same(paths[i].as_str(), p) {
            assert(same_path(texts(paths@)[i as int], p@));
            return true;
        }
    }
    false
}

fn add_roots(paths: &mut Vec<String>, source_roots: &Vec<SourceRootData>, root: &str)
    ensures
        texts(final(paths)@) == with_roots(texts(old(paths)@), source_roots@, root@),
{
    let ghost start = texts(paths@);
    assert(source_roots@.take(0) =~= Seq::<SourceRootData>::empty());
    for i in 0..source_roots.len()
        invariant
            texts(paths@) == with_roots(start, source_roots@.take(i as int), root@),
    {
        assert(source_roots@.take(i + 1).drop_last() =~= source_roots@.take(i as int));
        let ghost before = texts(paths@);
        let source_root = &source_roots[i];
        if is_indexed_type(source_root.root_type.as_str()) {
            let path = substitute(source_root.path.as_str(), root);
            if !is_named(paths, path.as_str()) {
                paths.push(path);
                assert(texts(paths@) =~= before.push(path@));
            }
        }
    }
    assert(source_roots@.take(source_roots@.len() as int) =~= source_roots@);
}

fn add_content_roots(paths: &mut Vec<String>, content_roots: &Vec<ContentRootData>, root: &str)
    ensures
        texts(final(paths)@) == with_content_roots(texts(old(paths)@), content_roots@, root@),
{
    let ghost start = texts(paths@);
    assert(content_roots@.take(0) =~= Seq::<ContentRootData>::empty());
    for i in 0..content_roots.len()
        invariant
            texts(paths@) == with_content_roots(start, content_roots@.take(i as int), root@),
    {
        assert(content_roots@.take(i + 1).drop_last() =~= content_roots@.take(i as int));
        add_roots(paths, &content_roots[i].source_roots, root);
    }
    assert(content_roots@.take(content_roots@.len() as int) =~= content_roots@);
}

/// The source roots that the file names, in order, each once.
pub fn load_source_paths(data: &WorkspaceJson, workspace_root: &str) -> (r: Vec<String>)
    ensures
        texts(r@) == source_roots(*data, workspace_root@),
{
    let mut paths: Vec<String> = Vec::new();
    assert(data.modules@.take(0) =~= Seq::<ModuleData>::empty());
    assert(texts(paths@) =~= Seq::<Seq<char>>::empty());
    for i in 0..data.modules.len()
        invariant
            texts(paths@) == with_modules(
                Seq::empty(),
                data.modules@.take(i as int),
                workspace_root@,
            ),
    {
        assert(data.modules@.take(i + 1).drop_last() =~= data.modules@.take(i as int));
        add_content_roots(&mut paths, &data.modules[i].content_roots, workspace_root);
    }
    assert(data.modules@.take(data.modules@.len() as int) =~= data.modules@);
    paths
}

/// The library source directories that the file names, where it names any.
pub open spec fn library_paths(data: WorkspaceJson, root: Seq<char>) -> Option<Seq<Seq<char>>> {
    match data.source_paths {
        Some(paths) => Some(texts(paths@).map_values(|p: Seq<char>| substituted(p, root))),
        None => None,
    }
}

/// The library source directories that the file names, where it names any.
pub fn load_library_paths(data: &WorkspaceJson, workspace_root: &str) -> (r: Option<Vec<String>>)
    ensures
        match r {
            Some(v) => library_paths(*data, workspace_root@) == Some(texts(v@)),
            None => library_paths(*data, workspace_root@) is None,
        },
{
    let paths = match &data.source_paths {
        Some(paths) => paths,
        None => {
            return None;
        },
    };
    let mut r: Vec<String> = Vec::new();
    for i in 0..paths.len()
        invariant
            r@.len() == i,
            forall|k: int|
                0 <= k < i ==> (#[trigger] r@[k])@ == substituted(
                    texts(paths@)[k],
                    workspace_root@,
                ),
    {
        r.push(substitute(paths[i].as_str(), workspace_root));
    }
    assert(texts(r@) =~= library_paths(*data, workspace_root@)->0);
    Some(r)
}

} // verus!
