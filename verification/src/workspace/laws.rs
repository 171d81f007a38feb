//! What holds of the workspace: its source paths, its scans, and its answers to events.
use vstd::prelude::*;

use super::actor::{rising, Actor, WorkspaceAction, WorkspaceEvent};
use super::config::{
    layout_dirs, module_dirs, resolved_sources_are_a_union, Discovery, WorkspaceConfig,
    BUILD_FILES, LAYOUT_DIRS,
};
use super::file_changes::{one_per_file, task_for, unfinished, REINDEX_DELAY_MS};
use super::phase::WorkspacePhase;
use super::scan_handler::{paths_of, ScanHandler};
use super::scan_queue::{ScanArgs, ScanKind, ScanQueue};
use crate::path::joined;
use crate::text::{extended, extending_is_a_union, replace_all, texts};
use crate::workspace_json::source_roots;
use crate::workspace_json_laws::named_libraries_are_listed;

verus! {

proof fn lemma_layout_dirs(modules: Seq<Seq<char>>, d: Seq<char>)
    ensures
        layout_dirs(modules).contains(d) <==> exists|i: int|
            0 <= i < modules.len() && module_dirs(#[trigger] modules[i]).contains(d),
    decreases modules.len(),
{
    if modules.len() > 0 {
        let m = modules.drop_last();
        lemma_layout_dirs(m, d);
        let a = layout_dirs(m);
        let b = module_dirs(modules.last());
        let all = layout_dirs(modules);
        assert(all == a + b);
        if all.contains(d) {
            let k = all.index_of(d);
            if k < a.len() {
                assert(a[k] == d);
                let i = choose|i: int| 0 <= i < m.len() && module_dirs(#[trigger] m[i]).contains(d);
                assert(modules[i] == m[i]);
            } else {
                assert(b[k - a.len()] == d);
                assert(modules[modules.len() - 1] == modules.last());
            }
        }
        if exists|i: int| 0 <= i < modules.len() && module_dirs(#[trigger] modules[i]).contains(d) {
            let i = choose|i: int|
                0 <= i < modules.len() && module_dirs(#[trigger] modules[i]).contains(d);
            if i < m.len() {
                assert(m[i] == modules[i]);
                let k = a.index_of(d);
                assert(all[k] == d);
            } else {
                let k = b.index_of(d);
                assert(all[a.len() + k] == d);
            }
        }
    }
}

/// The standard build layout: in every module the Kotlin and the Java directory of the main and
/// of the test sources. A module is told by a Gradle or a Maven build file.
pub proof fn every_module_has_these_source_directories(modules: Seq<Seq<char>>, d: Seq<char>)
    ensures
        layout_dirs(modules).contains(d) <==> exists|i: int|
            0 <= i < modules.len() && (d == joined(#[trigger] modules[i], "src/main/kotlin"@) || d
                == joined(modules[i], "src/main/java"@) || d == joined(
                modules[i],
                "src/test/kotlin"@,
            ) || d == joined(modules[i], "src/test/java"@)),
        BUILD_FILES@[0]@ == "build.gradle.kts"@,
        BUILD_FILES@[1]@ == "build.gradle"@,
        BUILD_FILES@[2]@ == "pom.xml"@,
{
    lemma_layout_dirs(modules, d);
    assert(LAYOUT_DIRS@[0]@ == "src/main/kotlin"@);
    assert(LAYOUT_DIRS@[1]@ == "src/main/java"@);
    assert(LAYOUT_DIRS@[2]@ == "src/test/kotlin"@);
    assert(LAYOUT_DIRS@[3]@ == "src/test/java"@);
    assert forall|i: int| 0 <= i < modules.len() implies (module_dirs(
        #[trigger] modules[i],
    ).contains(d) <==> (d == joined(modules[i], "src/main/kotlin"@) || d == joined(
        modules[i],
        "src/main/java"@,
    ) || d == joined(modules[i], "src/test/kotlin"@) || d == joined(
        modules[i],
        "src/test/java"@,
    ))) by {
        let dirs = module_dirs(modules[i]);
        assert(dirs[0] == joined(modules[i], "src/main/kotlin"@));
        assert(dirs[1] == joined(modules[i], "src/main/java"@));
        assert(dirs[2] == joined(modules[i], "src/test/kotlin"@));
        assert(dirs[3] == joined(modules[i], "src/test/java"@));
        if dirs.contains(d) {
            let k = dirs.index_of(d);
            assert(dirs[k] == d);
        }
    }
}

/// The path is one that the project itself has: of a `workspace.json` a source root it names,
/// without one an existing directory of the build layout.
pub open spec fn of_the_project(root: Seq<char>, found: Discovery, p: Seq<char>) -> bool {
    match found.workspace_json {
        Some(data) => source_roots(data, root).contains(p),
        None => texts(found.layout_paths@).contains(p),
    }
}

/// The path is one of library sources: one that `workspace.json` names where it says anything of
/// them, else the default directory.
pub open spec fn of_a_library(root: Seq<char>, found: Discovery, p: Seq<char>) -> bool {
    if found.workspace_json is Some && found.workspace_json->0.source_paths is Some {
        exists|i: int|
            0 <= i < found.workspace_json->0.source_paths->0@.len() && p == replace_all(
                (#[trigger] found.workspace_json->0.source_paths->0@[i])@,
                "<WORKSPACE>"@,
                root,
            )
    } else {
        found.default_sources matches Some(dir) && dir@ == p
    }
}

/// The source paths are exactly those that the client configured, those of the project and
/// those of the libraries, each once.
pub proof fn sources_are_configured_discovered_or_of_libraries(
    config: WorkspaceConfig,
    found: Discovery,
    p: Seq<char>,
)
    ensures
        config.sources(found).contains(p) <==> (exists|i: int|
            0 <= i < config.explicit_source_paths@.len() && (
            #[trigger] config.explicit_source_paths@[i])@ == p) || of_the_project(
            config.root@,
            found,
            p,
        ) || of_a_library(config.root@, found, p),
        forall|i: int, j: int|
            0 <= i < j < config.sources(found).len() ==> #[trigger] config.sources(found)[i]
                != #[trigger] config.sources(found)[j],
{
    resolved_sources_are_a_union(config, found);
    let explicit = texts(config.explicit_source_paths@);
    if explicit.contains(p) {
        let i = explicit.index_of(p);
        assert(config.explicit_source_paths@[i]@ == p);
    }
    if exists|i: int|
        0 <= i < config.explicit_source_paths@.len() && (#[trigger] config.explicit_source_paths@[i])@
            == p {
        let i = choose|i: int|
            0 <= i < config.explicit_source_paths@.len() && (
            #[trigger] config.explicit_source_paths@[i])@ == p;
        assert(explicit[i] == p);
    }
    let libraries = super::config::library_dirs(config.root@, found);
    assert(libraries.contains(p) <==> of_a_library(config.root@, found, p)) by {
        if found.workspace_json is Some && found.workspace_json->0.source_paths is Some {
            let data = found.workspace_json->0;
            named_libraries_are_listed(data, config.root@);
            if libraries.contains(p) {
                let i = libraries.index_of(p);
                assert(data.source_paths->0@[i]@ == data.source_paths->0@[i]@);
                assert(libraries[i] == p);
            }
            if of_a_library(config.root@, found, p) {
                let i = choose|i: int|
                    0 <= i < data.source_paths->0@.len() && p == replace_all(
                        (#[trigger] data.source_paths->0@[i])@,
                        "<WORKSPACE>"@,
                        config.root@,
                    );
                assert(libraries[i] == p);
            }
        } else {
            match found.default_sources {
                Some(dir) => {
                    assert(libraries =~= seq![dir@]);
                    assert(libraries[0] == dir@);
                },
                None => {},
            }
        }
    }
}

proof fn lemma_extension_is_new(files: Seq<Seq<char>>, new: Seq<Seq<char>>)
    ensures
        extended(files, new).len() >= files.len(),
        forall|i: int|
            files.len() <= i < extended(files, new).len() ==> new.contains(
                #[trigger] extended(files, new)[i],
            ),
    decreases new.len(),
{
    if new.len() > 0 {
        let d = new.drop_last();
        lemma_extension_is_new(files, d);
        let before = extended(files, d);
        let all = extended(files, new);
        assert forall|i: int| files.len() <= i < all.len() implies new.contains(
            #[trigger] all[i],
        ) by {
            if i < before.len() {
                assert(all[i] == before[i]);
                let k = d.index_of(before[i]);
                assert(new[k] == all[i]);
            } else {
                assert(new[new.len() - 1] == all[i]);
            }
        }
    }
}

/// The source paths come in the order of their priority: first those that the client
/// configured, then those of the project, then those of the libraries.
pub proof fn sources_come_in_order_of_priority(config: WorkspaceConfig, found: Discovery)
    ensures
        exists|a: int, b: int|
            #![trigger config.sources(found).subrange(a, b)]
            0 <= a <= b <= config.sources(found).len() && (forall|i: int|
                0 <= i < a ==> texts(config.explicit_source_paths@).contains(
                    #[trigger] config.sources(found)[i],
                )) && (forall|i: int|
                a <= i < b ==> super::config::project_paths(config.root@, found).contains(
                    #[trigger] config.sources(found)[i],
                )) && forall|i: int|
                b <= i < config.sources(found).len() ==> super::config::library_dirs(
                    config.root@,
                    found,
                ).contains(#[trigger] config.sources(found)[i]),
{
    let none = Seq::<Seq<char>>::empty();
    let x = texts(config.explicit_source_paths@);
    let y = super::config::project_paths(config.root@, found);
    let z = super::config::library_dirs(config.root@, found);
    let s1 = extended(none, x);
    let s2 = extended(s1, y);
    let s3 = extended(s2, z);
    lemma_extension_is_new(none, x);
    lemma_extension_is_new(s1, y);
    lemma_extension_is_new(s2, z);
    extending_is_a_union(s1, y);
    extending_is_a_union(s2, z);
    let a = s1.len() as int;
    let b = s2.len() as int;
    assert(config.sources(found) == s3);
    assert forall|i: int| 0 <= i < b implies s3[i] == s2[i] by {
        assert(s3.subrange(0, b)[i] == s2[i]);
    }
    assert forall|i: int| 0 <= i < a implies s2[i] == s1[i] by {
        assert(s2.subrange(0, a)[i] == s1[i]);
    }
    assert forall|i: int| 0 <= i < a implies x.contains(#[trigger] s3[i]) by {
        assert(s3[i] == s2[i] && s2[i] == s1[i]);
        assert(x.contains(s1[i]));
    }
    assert forall|i: int| a <= i < b implies y.contains(#[trigger] s3[i]) by {
        assert(s3[i] == s2[i]);
    }
    let part = config.sources(found).subrange(a, b);
}

/// Asking for a scan lets it wait in place of any other; what waits starts when nothing runs,
/// and then nothing waits and something runs; when the scan ends, nothing runs.
pub proof fn scans_wait_start_and_end<C>(queue: ScanQueue<C>, args: ScanArgs<C>)
    ensures
        queue.requested(args).pending == Some(args),
        queue.requested(args).in_progress == queue.in_progress,
        queue.in_progress ==> queue.startable() is None && queue.started() == queue,
        !queue.in_progress ==> queue.startable() == queue.pending,
        !queue.in_progress && queue.pending is Some ==> queue.started().pending is None
            && queue.started().in_progress,
        !queue.in_progress && queue.pending is None ==> queue.started() == queue,
        !queue.finished().in_progress,
        queue.finished().pending == queue.pending,
{
}

/// The scan is in the queue: it starts where nothing ran, and else it alone waits.
pub open spec fn scan_is_due<C>(
    before: ScanHandler<C>,
    after: ScanHandler<C>,
    start: Option<ScanArgs<C>>,
    scan: ScanArgs<C>,
) -> bool {
    &&& after.queue.in_progress
    &&& before.queue.in_progress ==> start is None && after.queue.pending == Some(scan)
    &&& !before.queue.in_progress ==> start == Some(scan) && after.queue.pending is None
}

/// The workspace has this root, these source paths and these ignore patterns.
pub open spec fn workspace_is<C>(
    handler: ScanHandler<C>,
    root: Seq<char>,
    source_paths: Seq<Seq<char>>,
    ignore_patterns: Seq<String>,
) -> bool {
    &&& handler.phase matches WorkspacePhase::Ready(data) && data.root@ == root && texts(
        data.source_paths@,
    ) == source_paths && data.ignore_patterns@ == ignore_patterns
    &&& handler.workspace_root matches Some(r) && r@ == root
    &&& texts(handler.source_paths@) == source_paths
    &&& match handler.ignore_matcher {
        Some(m) => ignore_patterns.len() > 0 && m.built_from(ignore_patterns, root),
        None => ignore_patterns.len() == 0,
    }
}

/// Initializing gives the workspace the configured root, the resolved source paths and the
/// configured ignore patterns, pins it where that is configured, supersedes every earlier scan,
/// and lets a scan of all of it be due whose end is announced to the caller.
pub proof fn initializing_configures_and_scans<C>(
    before: ScanHandler<C>,
    after: ScanHandler<C>,
    config: WorkspaceConfig,
    found: Discovery,
    completion_tx: Option<C>,
    start: Option<ScanArgs<C>>,
)
    requires
        after.initialized(before, config, found, completion_tx, start),
    ensures
        workspace_is(after, config.root@, config.sources(found), config.ignore_patterns@),
        after.workspace_pinned == config.pin_workspace,
        after.root_generation != before.root_generation,
        exists|scan: ScanArgs<C>| #[trigger]
            scan_is_due(before, after, start, scan) && scan.root@ == config.root@ && texts(
                scan.source_paths@,
            ) == config.sources(found) && (scan.kind matches ScanKind::Prioritized {
                initial_paths,
            } && initial_paths@.len() == 0) && scan.completion_tx == completion_tx
                && scan.expected_generation == after.root_generation && scan.reset_before_scan == (
            before.queue.pending matches Some(waiting) && waiting.reset_before_scan),
{
    let args = choose|args: ScanArgs<C>|
        #![trigger after.scan_requested(before, args, start)]
        super::scan_handler::asks_for(
            args,
            config.root@,
            config.sources(found),
            Some(Seq::empty()),
            completion_tx,
            after.root_generation,
            false,
        ) && after.scan_requested(before, args, start);
    let scan = super::scan_handler::carrying_reset(args, before.queue.pending);
    assert(scan_is_due(before, after, start, scan));
    match args.kind {
        ScanKind::Prioritized { initial_paths } => {
            assert(texts(initial_paths@).len() == initial_paths@.len());
        },
        ScanKind::Full => {},
    }
}

/// Re-indexing changes nothing of the workspace, and lets a full scan of it be due, behind a
/// reset of the index; without a workspace it does nothing.
pub proof fn reindexing_scans_from_scratch<C>(
    before: ScanHandler<C>,
    after: ScanHandler<C>,
    start: Option<ScanArgs<C>>,
)
    requires
        after.reindexed(before, start),
    ensures
        after.phase == before.phase,
        after.workspace_pinned == before.workspace_pinned,
        after.root_generation == before.root_generation,
        before.phase is Uninitialized ==> start is None && after.queue == before.queue,
        before.phase matches WorkspacePhase::Ready(data) ==> exists|scan: ScanArgs<C>| #[trigger]
            scan_is_due(before, after, start, scan) && scan.root@ == data.root@ && texts(
                scan.source_paths@,
            ) == texts(data.source_paths@) && scan.kind is Full && scan.completion_tx is None
                && scan.expected_generation == before.root_generation && scan.reset_before_scan,
{
    match before.phase {
        WorkspacePhase::Ready(data) => {
            let args = choose|args: ScanArgs<C>|
                #![trigger after.scan_requested(before, args, start)]
                super::scan_handler::asks_for(
                    args,
                    data.root@,
                    texts(data.source_paths@),
                    None,
                    None,
                    before.root_generation,
                    true,
                ) && after.scan_requested(before, args, start);
            let scan = super::scan_handler::carrying_reset(args, before.queue.pending);
            assert(scan_is_due(before, after, start, scan));
        },
        WorkspacePhase::Uninitialized => {},
    }
}

/// Switching the root gives the workspace that root, pins it, and leaves nothing of the old one:
/// the source paths are those discovered below it, there are no ignore patterns, every earlier
/// scan is superseded, and a scan of it is due behind a reset of the index; a full one, or one
/// with the given paths first.
pub proof fn switching_the_root_starts_anew<C>(
    before: ScanHandler<C>,
    after: ScanHandler<C>,
    root: Seq<char>,
    found: Discovery,
    first: Option<Seq<Seq<char>>>,
    start: Option<ScanArgs<C>>,
)
    requires
        after.root_switched(before, root, found, first, start),
    ensures
        exists|config: WorkspaceConfig|
            #![trigger config.sources(found)]
            config.root@ == root && config.explicit_source_paths@.len() == 0 && workspace_is(
                after,
                root,
                config.sources(found),
                Seq::empty(),
            ),
        after.ignore_matcher is None,
        after.workspace_pinned,
        after.root_generation != before.root_generation,
        exists|scan: ScanArgs<C>| #[trigger]
            scan_is_due(before, after, start, scan) && scan.root@ == root && texts(
                scan.source_paths@,
            ) == texts(after.source_paths@) && (match first {
                Some(paths) => scan.kind matches ScanKind::Prioritized { initial_paths } && texts(
                    initial_paths@,
                ) == paths,
                None => scan.kind is Full,
            }) && scan.completion_tx is None && scan.expected_generation == after.root_generation
                && scan.reset_before_scan,
{
    let config = choose|config: WorkspaceConfig| #[trigger]
        after.configured(config, found) && super::scan_handler::bare_config(config, root);
    assert(config.ignore_patterns@ =~= Seq::empty());
    assert(workspace_is(after, root, config.sources(found), Seq::empty()));
    let args = choose|args: ScanArgs<C>|
        #![trigger after.scan_requested(before, args, start)]
        super::scan_handler::asks_for(
            args,
            root,
            texts(after.source_paths@),
            first,
            None,
            after.root_generation,
            true,
        ) && after.scan_requested(before, args, start);
    let scan = super::scan_handler::carrying_reset(args, before.queue.pending);
    assert(scan_is_due(before, after, start, scan));
}

/// The file that a root is switched for comes first in the scan.
pub proof fn opened_files_come_first(path: String)
    ensures
        paths_of(Some(path)) == seq![path@],
        paths_of(None).len() == 0,
{
}

/// The task that waits for a file is one of those that wait, and it is found wherever it stands.
pub proof fn waiting_tasks_are_found<H>(pending: Seq<(String, H)>, uri: Seq<char>)
    requires
        one_per_file(pending),
    ensures
        task_for(pending, uri) matches Some(task) ==> exists|i: int|
            0 <= i < pending.len() && (#[trigger] pending[i]).0@ == uri && pending[i].1 == task,
        forall|i: int|
            0 <= i < pending.len() && (#[trigger] pending[i]).0@ == uri ==> task_for(pending, uri)
                == Some(pending[i].1),
    decreases pending.len(),
{
    if pending.len() > 0 {
        let d = pending.drop_last();
        assert(one_per_file(d)) by {
            assert forall|i: int, j: int| 0 <= i < j < d.len() implies (#[trigger] d[i]).0@ != (
            #[trigger] d[j]).0@ by {
                assert(pending[i].0@ != pending[j].0@);
            }
        }
        waiting_tasks_are_found(d, uri);
        assert(pending[pending.len() - 1] == pending.last());
        if pending.last().0@ != uri {
            if task_for(pending, uri) is Some {
                let i = choose|i: int|
                    0 <= i < d.len() && (#[trigger] d[i]).0@ == uri && d[i].1 == task_for(
                        d,
                        uri,
                    )->0;
                assert(pending[i] == d[i]);
            }
        }
        assert forall|i: int| 0 <= i < pending.len() && (#[trigger] pending[i]).0@ == uri implies task_for(
            pending,
            uri,
        ) == Some(pending[i].1) by {
            if i < d.len() {
                assert(d[i] == pending[i]);
                assert(pending[i].0@ != pending[pending.len() - 1].0@);
            }
        }
    }
}

/// Of the tasks that wait exactly those are left that have not finished.
pub proof fn unfinished_tasks_are_left<H>(
    pending: Seq<(String, H)>,
    finished: Seq<bool>,
    task: (String, H),
)
    requires
        pending.len() == finished.len(),
    ensures
        unfinished(pending, finished).contains(task) <==> exists|i: int|
            0 <= i < pending.len() && #[trigger] pending[i] == task && !finished[i],
    decreases pending.len(),
{
    lemma_unfinished_left(pending, finished, task);
}

proof fn lemma_unfinished_left<H>(
    pending: Seq<(String, H)>,
    finished: Seq<bool>,
    task: (String, H),
)
    requires
        pending.len() <= finished.len(),
    ensures
        unfinished(pending, finished).contains(task) <==> exists|i: int|
            0 <= i < pending.len() && #[trigger] pending[i] == task && !finished[i],
    decreases pending.len(),
{
    if pending.len() > 0 {
        let d = pending.drop_last();
        lemma_unfinished_left(d, finished, task);
        let before = unfinished(d, finished);
        let all = unfinished(pending, finished);
        let n = pending.len() - 1;
        if all.contains(task) {
            let k = all.index_of(task);
            if k < before.len() {
                assert(before[k] == task);
                let i = choose|i: int|
                    0 <= i < d.len() && #[trigger] d[i] == task && !finished[i];
                assert(pending[i] == task);
            } else {
                assert(pending[n] == task);
            }
        }
        if exists|i: int| 0 <= i < pending.len() && #[trigger] pending[i] == task && !finished[i] {
            let i = choose|i: int|
                0 <= i < pending.len() && #[trigger] pending[i] == task && !finished[i];
            if i < n {
                assert(d[i] == task);
                let k = before.index_of(task);
                assert(all[k] == task);
            } else {
                assert(all[before.len() as int] == task);
            }
        }
    }
}

/// What the caller is told to do with a file: on a change to take the last text of the batch
/// and to cancel the file's waiting task, on opening, saving and deleting just that, on closing
/// also to cancel the task. None of it touches the scans, and an empty batch does nothing.
pub proof fn files_are_handled<C, H>(
    before: Actor<C, H>,
    after: Actor<C, H>,
    event: WorkspaceEvent<C>,
    found: Discovery,
    finished: Seq<bool>,
    action: WorkspaceAction<C, H>,
)
    requires
        before.wf(),
        after.handled(before, event, found, finished, action),
    ensures
        event matches WorkspaceEvent::FileOpened { uri, language_id, content } ==> after == before
            && action == (WorkspaceAction::<C, H>::OpenFile { uri, language_id, content }),
        event matches WorkspaceEvent::FileSaved { uri } ==> after == before && action == (
        WorkspaceAction::<C, H>::SaveFile { uri }),
        event matches WorkspaceEvent::FileDeleted { uri } ==> after == before && action == (
        WorkspaceAction::<C, H>::DeleteFile { uri }),
        event matches WorkspaceEvent::FileClosed { uri } ==> {
            &&& after.scans == before.scans
            &&& action matches WorkspaceAction::CloseFile { uri: closed, cancel }
            &&& closed == uri
            &&& cancel == task_for(before.files.pending_reindex@, uri@)
            &&& task_for(after.files.pending_reindex@, uri@) is None
            &&& forall|other: Seq<char>|
                other != uri@ ==> #[trigger] after.files.pending_for(other) == task_for(
                    before.files.pending_reindex@,
                    other,
                )
        },
        event matches WorkspaceEvent::FileChanged { uri, changes } ==> {
            &&& after.scans == before.scans
            &&& changes@.len() == 0 ==> after.files == before.files && action is Nothing
            &&& changes@.len() > 0 ==> {
                &&& action matches WorkspaceAction::UpdateFile { uri: changed, text, cancel }
                &&& changed == uri
                &&& text@ == changes@[changes@.len() - 1]@
                &&& cancel == task_for(unfinished(before.files.pending_reindex@, finished), uri@)
                &&& task_for(after.files.pending_reindex@, uri@) is None
            }
        },
        REINDEX_DELAY_MS == 300,
{
}

/// Events of the workspace itself: initializing, re-indexing and switching the root change the
/// scans as said of them, leave the waiting tasks alone, and start a scan exactly where one is
/// to start now.
pub proof fn workspace_events_are_handled<C, H>(
    before: Actor<C, H>,
    after: Actor<C, H>,
    event: WorkspaceEvent<C>,
    found: Discovery,
    finished: Seq<bool>,
    action: WorkspaceAction<C, H>,
)
    requires
        before.wf(),
        after.handled(before, event, found, finished, action),
    ensures
        ({
            let start = match action {
                WorkspaceAction::StartScan(scan) => Some(scan),
                _ => None,
            };
            let due = event is Initialize || event is Reindex || event is ChangeRoot;
            &&& due ==> after.files == before.files && (action is StartScan || action is Nothing)
            &&& event matches WorkspaceEvent::Initialize { config, completion_tx }
                ==> after.scans.initialized(before.scans, config, found, completion_tx, start)
            &&& event is Reindex ==> after.scans.reindexed(before.scans, start)
            &&& event matches WorkspaceEvent::ChangeRoot { root } ==> after.scans.root_switched(
                before.scans,
                root@,
                found,
                None,
                start,
            )
        }),
        after.was_ready == before.was_ready,
        after.scanned == before.scanned,
{
}

/// The workspace is ready where it is initialized and no scan runs, serves queries where it is
/// initialized and has been scanned, and becomes ready where it is ready and was not.
pub proof fn ready_and_serving<C, H>(actor: Actor<C, H>)
    ensures
        actor.scans.quiet() <==> !(actor.scans.phase is Uninitialized)
            && !actor.scans.queue.in_progress,
        actor.serving() <==> !(actor.scans.phase is Uninitialized) && actor.scanned,
        rising(false, true),
        !rising(true, true),
        !rising(true, false),
        !rising(false, false),
{
}

} // verus!
