//! Workspace configuration and the discovery of source paths.
use vstd::prelude::*;

use crate::path::{join, joined};
use crate::rg::search::flag_set;
use crate::text::{extend_texts, extended, extending_is_a_union, texts};
use crate::workspace_json::{
    library_paths, load_library_paths, load_source_paths, source_roots, WorkspaceJson,
};

verus! {

/// Snapshot of the workspace configuration collected at startup.
#[derive(Debug, Clone)]
pub struct WorkspaceConfig {
    /// Absolute path to the workspace root.
    pub root: String,
    /// Source paths configured by the client; merged with the discovered ones.
    pub explicit_source_paths: Vec<String>,
    /// Ignore patterns configured by the client.
    pub ignore_patterns: Vec<String>,
    /// The root stays when a file of another project is opened.
    pub pin_workspace: bool,
}

/// What is found on disk for a workspace root.
#[derive(Debug, Clone)]
pub struct Discovery {
    /// The content of `workspace.json`; none where the file is absent.
    pub workspace_json: Option<WorkspaceJson>,
    /// The standard source directories of the build layout that exist.
    pub layout_paths: Vec<String>,
    /// The directory of extracted library sources, where it exists.
    pub default_sources: Option<String>,
}

/// The files that tell a module of a build.
pub const BUILD_FILES: [&'static str; 3] = ["build.gradle.kts", "build.gradle", "pom.xml"];

/// The source directories of the standard build layout, below each module.
pub const LAYOUT_DIRS: [&'static str; 4] = [
    "src/main/kotlin",
    "src/main/java",
    "src/test/kotlin",
    "src/test/java",
];

/// The standard source directories of a module.
pub open spec fn module_dirs(module: Seq<char>) -> Seq<Seq<char>> {
    Seq::new(4, |i: int| joined(module, LAYOUT_DIRS@[i]@))
}

/// The standard source directories of the modules.
pub open spec fn layout_dirs(modules: Seq<Seq<char>>) -> Seq<Seq<char>>
    decreases modules.len(),
{
    if modules.len() == 0 {
        Seq::empty()
    } else {
        layout_dirs(modules.drop_last()) + module_dirs(modules.last())
    }
}

/// The discovered paths of `workspace.json`, or of the build layout where there is no such
/// file.
pub open spec fn project_paths(root: Seq<char>, found: Discovery) -> Seq<Seq<char>> {
    match found.workspace_json {
        Some(data) => source_roots(data, root),
        None => texts(found.layout_paths@),
    }
}

/// The library source directories: those that `workspace.json` names, even if it names none,
/// else the default directory.
pub open spec fn library_dirs(root: Seq<char>, found: Discovery) -> Seq<Seq<char>> {
    let named = match found.workspace_json {
        Some(data) => library_paths(data, root),
        None => None,
    };
    match named {
        Some(paths) => paths,
        None => match found.default_sources {
            Some(dir) => seq![dir@],
            None => Seq::empty(),
        },
    }
}

impl WorkspaceConfig {
    /// The source paths to index: explicit ones first, then the project's, then the library
    /// directories, each once.
    pub open spec fn sources(&self, found: Discovery) -> Seq<Seq<char>> {
        extended(
            extended(
                extended(Seq::empty(), texts(self.explicit_source_paths@)),
                project_paths(self.root@, found),
            ),
            library_dirs(self.root@, found),
        )
    }

    /// The source paths to index, in order of priority, each once.
    ///
    /// 1. the explicit paths of the client
    /// 2. the source roots of `workspace.json`
    /// 3. the standard build layout, only where there is no `workspace.json`
    /// 4. the library directories that `workspace.json` names, else the default one
    pub fn resolve_sources(&self, found: &Discovery) -> (r: Vec<String>)
        ensures
            texts(r@) == self.sources(*found),
    {
        let mut paths: Vec<String> = Vec::new();
        assert(texts(paths@) =~= Seq::<Seq<char>>::empty());
        extend_texts(&mut paths, self.explicit_source_paths.as_slice());
        let mut named: Option<Vec<String>> = None;
        match &found.workspace_json {
            Some(data) => {
                extend_texts(
                    &mut paths,
                    load_source_paths(data, self.root.as_str()).as_slice(),
                );
                named = load_library_paths(data, self.root.as_str());
            },
            None => {
                extend_texts(&mut paths, found.layout_paths.as_slice());
            },
        }
        match named {
            Some(dirs) => {
                extend_texts(&mut paths, dirs.as_slice());
            },
            None => {
                if let Some(dir) = &found.default_sources {
                    let dirs: Vec<String> = vec![dir.clone()];
                    assert(texts(dirs@) =~= seq![dir@]);
                    extend_texts(&mut paths, dirs.as_slice());
                }
            },
        }
        paths
    }
}

/// The resolved paths hold each path once, begin with the explicit ones in their order, and
/// hold exactly the explicit, project and library paths.
pub proof fn resolved_sources_are_a_union(config: WorkspaceConfig, found: Discovery)
    ensures
        config.sources(found).no_duplicates(),
        extended(Seq::empty(), texts(config.explicit_source_paths@)).is_prefix_of(
            config.sources(found),
        ),
        forall|p: Seq<char>| #[trigger]
            config.sources(found).contains(p) == (texts(config.explicit_source_paths@).contains(p)
                || project_paths(config.root@, found).contains(p) || library_dirs(
                config.root@,
                found,
            ).contains(p)),
{
    let none = Seq::<Seq<char>>::empty();
    let explicit = extended(none, texts(config.explicit_source_paths@));
    let project = extended(explicit, project_paths(config.root@, found));
    extending_is_a_union(none, texts(config.explicit_source_paths@));
    extending_is_a_union(explicit, project_paths(config.root@, found));
    extending_is_a_union(project, library_dirs(config.root@, found));
    assert forall|p: Seq<char>| #[trigger]
        config.sources(found).contains(p) == (texts(config.explicit_source_paths@).contains(p)
            || project_paths(config.root@, found).contains(p) || library_dirs(
            config.root@,
            found,
        ).contains(p)) by {
        assert(project.contains(p) == (explicit.contains(p) || project_paths(
            config.root@,
            found,
        ).contains(p)));
        assert(explicit.contains(p) == (none.contains(p) || texts(
            config.explicit_source_paths@,
        ).contains(p)));
    }
}

/// Library directories that `workspace.json` names, even if it names none, replace the default
/// one.
pub proof fn named_libraries_replace_the_default(
    config: WorkspaceConfig,
    found: Discovery,
    default_sources: Option<String>,
)
    requires
        found.workspace_json matches Some(data) && data.source_paths is Some,
    ensures
        config.sources(found) == config.sources(Discovery { default_sources, ..found }),
{
}

/// Where there is a `workspace.json`, the build layout adds nothing.
pub proof fn workspace_json_replaces_the_layout(
    config: WorkspaceConfig,
    found: Discovery,
    layout_paths: Vec<String>,
)
    requires
        found.workspace_json is Some,
    ensures
        config.sources(found) == config.sources(Discovery { layout_paths, ..found }),
{
}

/// The standard source directories of the modules, before it is known which of them exist.
pub fn layout_candidates(modules: &[String]) -> (r: Vec<String>)
    ensures
        texts(r@) == layout_dirs(texts(modules@)),
{
    let ghost all = texts(modules@);
    let mut r: Vec<String> = Vec::new();
    assert(all.take(0) =~= Seq::<Seq<char>>::empty());
    assert(texts(r@) =~= layout_dirs(all.take(0)));
    for i in 0..modules.len()
        invariant
            all == texts(modules@),
            texts(r@) == layout_dirs(all.take(i as int)),
    {
        assert(all.take(i + 1).drop_last() =~= all.take(i as int));
        let ghost before = texts(r@);
        let ghost dirs = module_dirs(all[i as int]);
        assert(before + dirs.take(0) =~= before);
        for k in 0..4
            invariant
                i < modules@.len(),
                all == texts(modules@),
                dirs == module_dirs(all[i as int]),
                texts(r@) == before + dirs.take(k as int),
        {
            let ghost sofar = texts(r@);
            r.push(join(modules[i].as_str(), LAYOUT_DIRS[k]));
            assert(texts(r@) =~= sofar.push(dirs[k as int]));
            assert(before + dirs.take(k + 1) =~= sofar.push(dirs[k as int]));
        }
        assert(dirs.take(4) =~= dirs);
    }
    assert(all.take(all.len() as int) =~= all);
    r
}

/// Those of the candidates that exist.
pub fn existing_paths(candidates: &[String], is_dir: &[bool]) -> (r: Vec<String>)
    ensures
        texts(r@) == flag_set(texts(candidates@), is_dir@),
{
    let ghost all = texts(candidates@);
    let mut r: Vec<String> = Vec::new();
    assert(texts(r@) =~= flag_set(all.take(0), is_dir@));
    for i in 0..candidates.len()
        invariant
            all == texts(candidates@),
            texts(r@) == flag_set(all.take(i as int), is_dir@),
    {
        assert(all.take(i + 1).drop_last() =~= all.take(i as int));
        let ghost before = texts(r@);
        if i < is_dir.len() && is_dir[i] {
            r.push(candidates[i].clone());
            assert(texts(r@) =~= before.push(all[i as int]));
        }
    }
    assert(all.take(all.len() as int) =~= all);
    r
}

} // verus!
