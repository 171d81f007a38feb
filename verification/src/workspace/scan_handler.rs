//! What each workspace event does to root, source paths, ignore patterns and scans.
use vstd::prelude::*;

use super::config::{Discovery, WorkspaceConfig};
use super::phase::{WorkspaceData, WorkspacePhase};
use super::scan_queue::{ScanArgs, ScanKind, ScanQueue};
use crate::rg::ignore::IgnoreMatcher;
use crate::text::{clone_strings, texts};
use crate::uri::text_of;

verus! {

/// The workspace state that scans depend on, and the scans themselves.
pub struct ScanHandler<C> {
    pub workspace_root: Option<String>,
    pub source_paths: Vec<String>,
    pub ignore_matcher: Option<IgnoreMatcher>,
    pub workspace_pinned: bool,
    pub phase: WorkspacePhase,
    /// Changes whenever the root is set.
    pub root_generation: u64,
    pub queue: ScanQueue<C>,
}

/// The matcher is the one of these patterns and this root; without patterns there is none.
pub open spec fn matcher_of(
    matcher: Option<IgnoreMatcher>,
    patterns: Seq<String>,
    root: Seq<char>,
) -> bool {
    match matcher {
        Some(m) => patterns.len() > 0 && m.built_from(patterns, root),
        None => patterns.len() == 0,
    }
}

/// The configuration of a root that is switched to: nothing of the old one is kept, and the
/// root is pinned.
pub open spec fn bare_config(config: WorkspaceConfig, root: Seq<char>) -> bool {
    &&& config.root@ == root
    &&& config.explicit_source_paths@.len() == 0
    &&& config.ignore_patterns@.len() == 0
    &&& config.pin_workspace
}

/// The scan that was asked for.
pub open spec fn asks_for<C>(
    args: ScanArgs<C>,
    root: Seq<char>,
    source_paths: Seq<Seq<char>>,
    initial_paths: Option<Seq<Seq<char>>>,
    completion: Option<C>,
    generation: u64,
    reset: bool,
) -> bool {
    &&& args.root@ == root
    &&& texts(args.source_paths@) == source_paths
    &&& match initial_paths {
        Some(paths) => args.kind matches ScanKind::Prioritized { initial_paths } && texts(
            initial_paths@,
        ) == paths,
        None => args.kind is Full,
    }
    &&& args.completion_tx == completion
    &&& args.expected_generation == generation
    &&& args.reset_before_scan == reset
}

/// The scan with the reset that the waiting scan, which it replaces, was to make.
pub open spec fn carrying_reset<C>(args: ScanArgs<C>, waiting: Option<ScanArgs<C>>) -> ScanArgs<C> {
    ScanArgs {
        reset_before_scan: args.reset_before_scan || (waiting matches Some(w)
            && w.reset_before_scan),
        ..args
    }
}

/// The path, where there is one.
pub open spec fn paths_of(path: Option<String>) -> Seq<Seq<char>> {
    match path {
        Some(p) => seq![p@],
        None => Seq::empty(),
    }
}

/// The generation after this one.
pub open spec fn next_generation(generation: u64) -> u64 {
    if generation == u64::MAX {
        0
    } else {
        (generation + 1) as u64
    }
}

impl<C> ScanHandler<C> {
    /// What is known of the workspace is that of its phase.
    pub open spec fn wf(&self) -> bool {
        match self.phase {
            WorkspacePhase::Uninitialized => self.workspace_root is None
                && self.source_paths@.len() == 0 && self.ignore_matcher is None,
            WorkspacePhase::Ready(data) => text_of(self.workspace_root) == Some(data.root@)
                && self.source_paths@ == data.source_paths@ && matcher_of(
                self.ignore_matcher,
                data.ignore_patterns@,
                data.root@,
            ),
        }
    }

    /// The workspace is ready with the configuration, and pinned as said.
    pub open spec fn configured(
        &self,
        config: WorkspaceConfig,
        found: Discovery,
    ) -> bool {
        &&& self.phase matches WorkspacePhase::Ready(data) && data.of(config, found)
        &&& self.workspace_pinned == config.pin_workspace
    }

    /// A scan asked for by `args` is in the queue, and started where none was running; a reset
    /// that the scan it replaces was to make is its own.
    pub open spec fn scan_requested(
        &self,
        before: Self,
        args: ScanArgs<C>,
        start: Option<ScanArgs<C>>,
    ) -> bool {
        let carried = carrying_reset(args, before.queue.pending);
        &&& start == before.queue.requested(carried).startable()
        &&& self.queue == before.queue.requested(carried).started()
    }

    /// What initializing does: the workspace is configured, and a scan without priorities is
    /// asked for.
    pub open spec fn initialized(
        &self,
        before: Self,
        config: WorkspaceConfig,
        found: Discovery,
        completion_tx: Option<C>,
        start: Option<ScanArgs<C>>,
    ) -> bool {
        &&& self.wf()
        &&& self.configured(config, found)
        &&& self.root_generation == next_generation(before.root_generation)
        &&& exists|args: ScanArgs<C>|
            #![trigger self.scan_requested(before, args, start)]
            asks_for(
                args,
                config.root@,
                config.sources(found),
                Some(Seq::empty()),
                completion_tx,
                self.root_generation,
                false,
            ) && self.scan_requested(before, args, start)
    }

    /// What re-indexing does: a full scan of the workspace is asked for, where there is one.
    pub open spec fn reindexed(&self, before: Self, start: Option<ScanArgs<C>>) -> bool {
        &&& self.wf()
        &&& self.phase == before.phase
        &&& self.workspace_pinned == before.workspace_pinned
        &&& self.root_generation == before.root_generation
        &&& match before.phase {
            WorkspacePhase::Uninitialized => start is None && self.queue == before.queue,
            WorkspacePhase::Ready(data) => exists|args: ScanArgs<C>|
                #![trigger self.scan_requested(before, args, start)]
                asks_for(
                    args,
                    data.root@,
                    texts(data.source_paths@),
                    None,
                    None,
                    before.root_generation,
                    true,
                ) && self.scan_requested(before, args, start),
        }
    }

    /// What switching the root does: the workspace is configured with nothing but the root,
    /// and a scan is asked for, a full one or one with the given paths first.
    pub open spec fn root_switched(
        &self,
        before: Self,
        root: Seq<char>,
        found: Discovery,
        initial_paths: Option<Seq<Seq<char>>>,
        start: Option<ScanArgs<C>>,
    ) -> bool {
        &&& self.wf()
        &&& exists|config: WorkspaceConfig| #[trigger]
            self.configured(config, found) && bare_config(config, root)
        &&& self.root_generation == next_generation(before.root_generation)
        &&& exists|args: ScanArgs<C>|
            #![trigger self.scan_requested(before, args, start)]
            asks_for(
                args,
                root,
                texts(self.source_paths@),
                initial_paths,
                None,
                self.root_generation,
                true,
            ) && self.scan_requested(before, args, start)
    }

    /// No workspace yet.
    pub fn new() -> (r: Self)
        ensures
            r.wf(),
            r.phase is Uninitialized,
            !r.workspace_pinned,
            r.root_generation == 0,
            r.queue.pending is None,
            !r.queue.in_progress,
    {
        ScanHandler {
            workspace_root: None,
            source_paths: Vec::new(),
            ignore_matcher: None,
            workspace_pinned: false,
            phase: WorkspacePhase::Uninitialized,
            root_generation: 0,
            queue: ScanQueue::new(),
        }
    }

    /// Whether a scan is running.
    pub fn is_scanning(&self) -> (r: bool)
        ensures
            r == self.queue.in_progress,
    {
        self.queue.is_in_progress()
    }

    /// The root of the workspace, where there is one.
    pub fn current_root(&self) -> (r: Option<String>)
        ensures
            text_of(r) == text_of(self.workspace_root),
    {
        match &self.workspace_root {
            Some(root) => Some(root.clone()),
            None => None,
        }
    }

    /// The workspace is initialized and no scan is running.
    pub open spec fn quiet(&self) -> bool {
        self.phase is Ready && !self.queue.in_progress
    }

    /// Whether the workspace is initialized and no scan is running.
    pub fn is_ready(&self) -> (r: bool)
        ensures
            r == self.quiet(),
    {
        self.phase.ready().is_some() && !self.queue.is_in_progress()
    }

    /// Takes over the configuration.
    fn configure(&mut self, config: &WorkspaceConfig, found: &Discovery)
        ensures
            final(self).wf(),
            final(self).configured(*config, *found),
            final(self).root_generation == next_generation(old(self).root_generation),
            final(self).queue == old(self).queue,
    {
        let data = WorkspaceData::from_config(config, found);
        self.workspace_root = Some(config.root.clone());
        self.root_generation =
        if self.root_generation == u64::MAX {
            0
        } else {
            self.root_generation + 1
        };
        self.ignore_matcher =
        if config.ignore_patterns.len() == 0 {
            None
        } else {
            Some(
                IgnoreMatcher::new(
                    clone_strings(config.ignore_patterns.as_slice()),
                    config.root.as_str(),
                ),
            )
        };
        self.workspace_pinned = config.pin_workspace;
        self.source_paths = clone_strings(data.source_paths.as_slice());
        self.phase.set_ready(data);
    }

    /// Asks for the scan, with the reset of the one it replaces; gives it back where it starts
    /// now.
    fn request_scan(&mut self, args: ScanArgs<C>) -> (r: Option<ScanArgs<C>>)
        ensures
            final(self).scan_requested(*old(self), args, r),
            final(self).workspace_root == old(self).workspace_root,
            final(self).source_paths == old(self).source_paths,
            final(self).ignore_matcher == old(self).ignore_matcher,
            final(self).workspace_pinned == old(self).workspace_pinned,
            final(self).phase == old(self).phase,
            final(self).root_generation == old(self).root_generation,
    {
        let waiting_reset = match &self.queue.pending {
            Some(waiting) => waiting.reset_before_scan,
            None => false,
        };
        let mut args = args;
        args.reset_before_scan = args.reset_before_scan || waiting_reset;
        self.queue.request(args);
        self.queue.try_start()
    }

    /// Configures the workspace and asks for its first scan.
    pub fn handle_initialize(
        &mut self,
        config: WorkspaceConfig,
        found: &Discovery,
        completion_tx: Option<C>,
    ) -> (r: Option<ScanArgs<C>>)
        ensures
            final(self).initialized(*old(self), config, *found, completion_tx, r),
    {
        self.configure(&config, found);
        let none: Vec<String> = Vec::new();
        assert(texts(none@) =~= Seq::<Seq<char>>::empty());
        let args = ScanArgs {
            root: config.root,
            kind: ScanKind::Prioritized { initial_paths: none },
            source_paths: clone_strings(self.source_paths.as_slice()),
            completion_tx,
            expected_generation: self.root_generation,
            reset_before_scan: false,
        };
        let ghost asked = args;
        let r = self.request_scan(args);
        assert(self.scan_requested(*old(self), asked, r));
        r
    }

    /// Asks for a scan of the current workspace from scratch; nothing without a workspace.
    pub fn handle_reindex(&mut self) -> (r: Option<ScanArgs<C>>)
        requires
            old(self).wf(),
        ensures
            final(self).reindexed(*old(self), r),
    {
        let root = match self.current_root() {
            Some(root) => root,
            None => {
                return None;
            },
        };
        let args = ScanArgs {
            root,
            kind: ScanKind::Full,
            source_paths: clone_strings(self.source_paths.as_slice()),
            completion_tx: None,
            expected_generation: self.root_generation,
            reset_before_scan: true,
        };
        let ghost asked = args;
        let r = self.request_scan(args);
        assert(self.scan_requested(*old(self), asked, r));
        r
    }

    /// The configuration of a root that is switched to.
    fn config_of(root: &str) -> (r: WorkspaceConfig)
        ensures
            bare_config(r, root@),
    {
        WorkspaceConfig {
            root: root.to_owned(),
            explicit_source_paths: Vec::new(),
            ignore_patterns: Vec::new(),
            pin_workspace: true,
        }
    }

    /// Switches to another root, whose source paths are resolved anew, and asks for a full
    /// scan.
    pub fn handle_change_root(&mut self, root: &str, found: &Discovery) -> (r: Option<ScanArgs<C>>)
        ensures
            final(self).root_switched(*old(self), root@, *found, None, r),
    {
        let config = Self::config_of(root);
        self.configure(&config, found);
        let args = ScanArgs {
            root: root.to_owned(),
            kind: ScanKind::Full,
            source_paths: clone_strings(self.source_paths.as_slice()),
            completion_tx: None,
            expected_generation: self.root_generation,
            reset_before_scan: true,
        };
        let ghost asked = args;
        let r = self.request_scan(args);
        assert(self.scan_requested(*old(self), asked, r));
        assert(self.configured(config, *found));
        r
    }

    /// Switches to the root of a document that was opened, and asks for a scan that takes the
    /// document first.
    pub fn switch_workspace_root_for_opened_document(
        &mut self,
        workspace_root: &str,
        opened_file_path: Option<String>,
        found: &Discovery,
    ) -> (r: Option<ScanArgs<C>>)
        ensures
            final(self).root_switched(
                *old(self),
                workspace_root@,
                *found,
                Some(paths_of(opened_file_path)),
                r,
            ),
    {
        let config = Self::config_of(workspace_root);
        self.configure(&config, found);
        let ghost opened = paths_of(opened_file_path);
        let mut initial_paths: Vec<String> = Vec::new();
        if let Some(p) = opened_file_path {
            initial_paths.push(p);
        }
        assert(texts(initial_paths@) =~= opened);
        let args = ScanArgs {
            root: workspace_root.to_owned(),
            kind: ScanKind::Prioritized { initial_paths },
            source_paths: clone_strings(self.source_paths.as_slice()),
            completion_tx: None,
            expected_generation: self.root_generation,
            reset_before_scan: true,
        };
        let ghost asked = args;
        let r = self.request_scan(args);
        assert(self.scan_requested(*old(self), asked, r));
        assert(self.configured(config, *found));
        r
    }

    /// Whether a scan is not superseded: its results are taken and its caller is notified.
    pub fn is_current(&self, expected_generation: u64) -> (r: bool)
        ensures
            r == (self.root_generation == expected_generation),
    {
        self.root_generation == expected_generation
    }

    /// Takes note that the running scan has finished; gives back the waiting one, which starts
    /// now.
    pub fn scan_finished(&mut self) -> (r: Option<ScanArgs<C>>)
        ensures
            r == old(self).queue.pending,
            final(self).queue == old(self).queue.finished().started(),
            final(self).workspace_root == old(self).workspace_root,
            final(self).source_paths == old(self).source_paths,
            final(self).ignore_matcher == old(self).ignore_matcher,
            final(self).workspace_pinned == old(self).workspace_pinned,
            final(self).phase == old(self).phase,
            final(self).root_generation == old(self).root_generation,
    {
        self.queue.completed();
        self.queue.try_start()
    }
}

/// A reset that was asked for is made, whatever is asked for before it starts: the scan that
/// replaces a waiting one makes its reset, whether it starts now or waits in turn.
pub proof fn resets_are_not_lost<C>(
    before: ScanHandler<C>,
    after: ScanHandler<C>,
    args: ScanArgs<C>,
    start: Option<ScanArgs<C>>,
)
    requires
        after.scan_requested(before, args, start),
        args.reset_before_scan || (before.queue.pending matches Some(w) && w.reset_before_scan),
    ensures
        match start {
            Some(scan) => scan.reset_before_scan,
            None => after.queue.pending matches Some(scan) && scan.reset_before_scan,
        },
{
}

/// A scan asked for before the root was set again is superseded.
pub proof fn setting_the_root_supersedes(generation: u64)
    ensures
        next_generation(generation) != generation,
{
}

/// Once initialized, no event makes the workspace uninitialized: a configured workspace is
/// ready.
pub proof fn configured_is_ready<C>(
    handler: ScanHandler<C>,
    config: WorkspaceConfig,
    found: Discovery,
)
    requires
        handler.wf(),
        handler.configured(config, found),
    ensures
        handler.phase is Ready,
        text_of(handler.workspace_root) == Some(config.root@),
        texts(handler.source_paths@) == config.sources(found),
        matcher_of(handler.ignore_matcher, config.ignore_patterns@, config.root@),
{
}

} // verus!
