//! The single writer of workspace state: one event at a time, in arrival order.
use vstd::prelude::*;

use super::config::{Discovery, WorkspaceConfig};
use super::file_changes::{drain_file_changed_batch, FileChangeHandler};
use super::scan_handler::{paths_of, ScanHandler};
use super::scan_queue::ScanArgs;

verus! {

/// Everything that can happen to the workspace; `C` is what the caller of a scan is notified
/// through.
pub enum WorkspaceEvent<C> {
    /// Configure the workspace and start its first scan. A later one switches the root and
    /// restarts the scan.
    Initialize { config: WorkspaceConfig, completion_tx: Option<C> },
    /// Re-scan the current workspace from scratch.
    Reindex,
    /// Switch to a new root, resolve its source paths and restart the scan.
    ChangeRoot { root: String },
    FileOpened { uri: String, language_id: String, content: String },
    /// A batch of changes, each with the whole text.
    FileChanged { uri: String, changes: Vec<String> },
    FileSaved { uri: String },
    FileClosed { uri: String },
    FileDeleted { uri: String },
}

/// What the caller has to do; `H` is what a waiting re-index task is cancelled through.
pub enum WorkspaceAction<C, H> {
    Nothing,
    /// Run the scan.
    StartScan(ScanArgs<C>),
    /// Take the text as the live one, cancel the task, and schedule a re-index.
    UpdateFile { uri: String, text: String, cancel: Option<H> },
    OpenFile { uri: String, language_id: String, content: String },
    SaveFile { uri: String },
    /// Forget the live text, and cancel the task.
    CloseFile { uri: String, cancel: Option<H> },
    DeleteFile { uri: String },
}

/// The state that events change.
pub struct Actor<C, H> {
    pub scans: ScanHandler<C>,
    pub files: FileChangeHandler<H>,
    pub was_ready: bool,
    /// A scan that was not superseded has finished.
    pub scanned: bool,
}

/// Running the scan, where one starts.
pub open spec fn starting<C, H>(start: Option<ScanArgs<C>>) -> WorkspaceAction<C, H> {
    match start {
        Some(args) => WorkspaceAction::StartScan(args),
        None => WorkspaceAction::Nothing,
    }
}

/// Running the scan, where one starts.
fn start_of<C, H>(start: Option<ScanArgs<C>>) -> (r: WorkspaceAction<C, H>)
    ensures
        r == starting::<C, H>(start),
{
    match start {
        Some(args) => WorkspaceAction::StartScan(args),
        None => WorkspaceAction::Nothing,
    }
}

/// The scan of an action, where it starts one.
pub open spec fn scan_of<C, H>(action: WorkspaceAction<C, H>) -> Option<ScanArgs<C>> {
    match action {
        WorkspaceAction::StartScan(args) => Some(args),
        _ => None,
    }
}

impl<C> WorkspaceEvent<C> {
    /// The root whose files have to be looked at before the event is handled.
    pub open spec fn new_root(&self) -> Option<Seq<char>> {
        match self {
            WorkspaceEvent::Initialize { config, completion_tx } => Some(config.root@),
            WorkspaceEvent::ChangeRoot { root } => Some(root@),
            _ => None,
        }
    }

    /// The root whose files have to be looked at before the event is handled.
    pub fn root_to_discover(&self) -> (r: Option<String>)
        ensures
            crate::uri::text_of(r) == self.new_root(),
    {
        match self {
            WorkspaceEvent::Initialize { config, completion_tx } => Some(config.root.clone()),
            WorkspaceEvent::ChangeRoot { root } => Some(root.clone()),
            _ => None,
        }
    }
}

impl<C, H> Actor<C, H> {
    /// The parts of the state are consistent.
    pub open spec fn wf(&self) -> bool {
        self.scans.wf() && self.files.wf()
    }

    /// What the event does, given what is found on disk for its root and which of the waiting
    /// tasks have finished.
    pub open spec fn handled(
        &self,
        before: Self,
        event: WorkspaceEvent<C>,
        found: Discovery,
        finished: Seq<bool>,
        action: WorkspaceAction<C, H>,
    ) -> bool {
        &&& self.wf()
        &&& self.was_ready == before.was_ready
        &&& self.scanned == before.scanned
        &&& match event {
            WorkspaceEvent::Initialize { config, completion_tx } => {
                &&& self.files == before.files
                &&& self.scans.initialized(
                    before.scans,
                    config,
                    found,
                    completion_tx,
                    scan_of(action),
                )
                &&& action == starting::<C, H>(scan_of(action))
            },
            WorkspaceEvent::Reindex => {
                &&& self.files == before.files
                &&& self.scans.reindexed(before.scans, scan_of(action))
                &&& action == starting::<C, H>(scan_of(action))
            },
            WorkspaceEvent::ChangeRoot { root } => {
                &&& self.files == before.files
                &&& self.scans.root_switched(before.scans, root@, found, None, scan_of(action))
                &&& action == starting::<C, H>(scan_of(action))
            },
            WorkspaceEvent::FileOpened { uri, language_id, content } => {
                &&& *self == before
                &&& action == (WorkspaceAction::<C, H>::OpenFile { uri, language_id, content })
            },
            WorkspaceEvent::FileChanged { uri, changes } => {
                &&& self.scans == before.scans
                &&& if changes@.len() == 0 {
                    self.files == before.files && action is Nothing
                } else {
                    &&& action matches WorkspaceAction::UpdateFile { uri: u, text, cancel }
                    &&& u == uri
                    &&& text@ == changes@.last()@
                    &&& self.files.superseded(before.files, uri@, finished, cancel)
                }
            },
            WorkspaceEvent::FileSaved { uri } => {
                &&& *self == before
                &&& action == (WorkspaceAction::<C, H>::SaveFile { uri })
            },
            WorkspaceEvent::FileClosed { uri } => {
                &&& self.scans == before.scans
                &&& action == (WorkspaceAction::<C, H>::CloseFile {
                    uri,
                    cancel: before.files.pending_for(uri@),
                })
                &&& self.files.pending_for(uri@) is None
                &&& forall|other: Seq<char>|
                    other != uri@ ==> #[trigger] self.files.pending_for(other)
                        == before.files.pending_for(other)
            },
            WorkspaceEvent::FileDeleted { uri } => {
                &&& *self == before
                &&& action == (WorkspaceAction::<C, H>::DeleteFile { uri })
            },
        }
    }

    /// The actor of a fresh workspace.
    pub fn new() -> (r: Self)
        ensures
            r.wf(),
            r.scans.phase is Uninitialized,
            r.scans.root_generation == 0,
            !r.scans.workspace_pinned,
            !r.scans.queue.in_progress,
            r.scans.queue.pending is None,
            r.files.pending_reindex@.len() == 0,
            !r.was_ready,
            !r.scanned,
    {
        Actor {
            scans: ScanHandler::new(),
            files: FileChangeHandler::new(),
            was_ready: false,
            scanned: false,
        }
    }

    /// Handles the event: changes the state, and says what the caller has to do.
    pub fn handle_event(
        &mut self,
        event: WorkspaceEvent<C>,
        found: &Discovery,
        finished: &[bool],
    ) -> (r: WorkspaceAction<C, H>)
        requires
            old(self).wf(),
        ensures
            final(self).handled(*old(self), event, *found, finished@, r),
    {
        match event {
            WorkspaceEvent::Initialize { config, completion_tx } => start_of(
                self.scans.handle_initialize(config, found, completion_tx),
            ),
            WorkspaceEvent::Reindex => start_of(self.scans.handle_reindex()),
            WorkspaceEvent::ChangeRoot { root } => start_of(
                self.scans.handle_change_root(root.as_str(), found),
            ),
            WorkspaceEvent::FileOpened { uri, language_id, content } => WorkspaceAction::OpenFile {
                uri,
                language_id,
                content,
            },
            WorkspaceEvent::FileChanged { uri, changes } => {
                match drain_file_changed_batch(changes) {
                    Some(text) => {
                        let cancel = self.files.supersede(uri.as_str(), finished);
                        WorkspaceAction::UpdateFile { uri, text, cancel }
                    },
                    None => WorkspaceAction::Nothing,
                }
            },
            WorkspaceEvent::FileSaved { uri } => WorkspaceAction::SaveFile { uri },
            WorkspaceEvent::FileClosed { uri } => {
                let cancel = self.files.cancel_pending_reindex(uri.as_str());
                WorkspaceAction::CloseFile { uri, cancel }
            },
            WorkspaceEvent::FileDeleted { uri } => WorkspaceAction::DeleteFile { uri },
        }
    }

    /// Switches to the root of a document that was opened.
    pub fn switch_root(
        &mut self,
        workspace_root: &str,
        opened_file_path: Option<String>,
        found: &Discovery,
    ) -> (r: WorkspaceAction<C, H>)
        requires
            old(self).wf(),
        ensures
            final(self).wf(),
            final(self).scans.root_switched(
                old(self).scans,
                workspace_root@,
                *found,
                Some(paths_of(opened_file_path)),
                scan_of(r),
            ),
            r == starting::<C, H>(scan_of(r)),
            final(self).files == old(self).files,
            final(self).was_ready == old(self).was_ready,
            final(self).scanned == old(self).scanned,
    {
        start_of(
            self.scans.switch_workspace_root_for_opened_document(
                workspace_root,
                opened_file_path,
                found,
            ),
        )
    }

    /// Takes note that the running scan, asked for at `generation`, has finished; the waiting
    /// one starts.
    pub fn scan_done(&mut self, generation: u64) -> (r: WorkspaceAction<C, H>)
        requires
            old(self).wf(),
        ensures
            final(self).wf(),
            r == starting::<C, H>(old(self).scans.queue.pending),
            final(self).scans.queue == old(self).scans.queue.finished().started(),
            final(self).scans.phase == old(self).scans.phase,
            final(self).scans.workspace_root == old(self).scans.workspace_root,
            final(self).scans.source_paths == old(self).scans.source_paths,
            final(self).scans.ignore_matcher == old(self).scans.ignore_matcher,
            final(self).scans.workspace_pinned == old(self).scans.workspace_pinned,
            final(self).scans.root_generation == old(self).scans.root_generation,
            final(self).files == old(self).files,
            final(self).was_ready == old(self).was_ready,
            final(self).scanned == (old(self).scanned || old(self).scans.root_generation
                == generation),
    {
        self.scanned = self.scanned || self.scans.is_current(generation);
        start_of(self.scans.scan_finished())
    }

    /// The workspace is initialized and has been scanned.
    pub open spec fn serving(&self) -> bool {
        self.scans.phase is Ready && self.scanned
    }

    /// Whether the workspace is initialized and has been scanned, so that it can serve queries.
    pub fn is_serving(&self) -> (r: bool)
        ensures
            r == self.serving(),
    {
        self.scans.phase.ready().is_some() && self.scanned
    }

    /// Whether the workspace has become ready since this was last asked: it is asked after
    /// every event and every finished scan.
    pub fn became_ready(&mut self) -> (r: bool)
        ensures
            r == rising(old(self).was_ready, old(self).scans.quiet()),
            final(self).was_ready == old(self).scans.quiet(),
            final(self).scanned == old(self).scanned,
            final(self).scans == old(self).scans,
            final(self).files == old(self).files,
    {
        let is_ready = self.scans.is_ready();
        let r = !self.was_ready && is_ready;
        self.was_ready = is_ready;
        r
    }
}

/// Becoming ready: not ready before, ready now.
pub open spec fn rising(was_ready: bool, is_ready: bool) -> bool {
    !was_ready && is_ready
}

/// How often becoming ready is announced, when it is asked after each of these states.
pub open spec fn announcements(was_ready: bool, states: Seq<bool>) -> nat
    decreases states.len(),
{
    if states.len() == 0 {
        0
    } else {
        (if rising(was_ready, states[0]) {
            1nat
        } else {
            0nat
        }) + announcements(states[0], states.skip(1))
    }
}

/// A workspace that stays ready is announced once, however many events arrive meanwhile.
pub proof fn staying_ready_is_announced_once(was_ready: bool, states: Seq<bool>)
    requires
        states.len() > 0,
        forall|i: int| 0 <= i < states.len() ==> #[trigger] states[i],
    ensures
        announcements(was_ready, states) == (if was_ready {
            0nat
        } else {
            1nat
        }),
    decreases states.len(),
{
    let rest = states.skip(1);
    assert(states[0]);
    if rest.len() > 0 {
        assert forall|i: int| 0 <= i < rest.len() implies #[trigger] rest[i] by {
            assert(states[i + 1]);
        }
        staying_ready_is_announced_once(true, rest);
    } else {
        assert(announcements(true, rest) == 0);
    }
}

/// A workspace that is never ready is never announced.
pub proof fn never_ready_is_not_announced(was_ready: bool, states: Seq<bool>)
    requires
        forall|i: int| 0 <= i < states.len() ==> !#[trigger] states[i],
    ensures
        announcements(was_ready, states) == 0,
    decreases states.len(),
{
    if states.len() > 0 {
        let rest = states.skip(1);
        assert(!states[0]);
        assert forall|i: int| 0 <= i < rest.len() implies !#[trigger] rest[i] by {
            assert(!states[i + 1]);
        }
        never_ready_is_not_announced(states[0], rest);
    }
}

/// No event makes an initialized workspace uninitialized.
pub proof fn ready_phase_lasts<C, H>(
    before: Actor<C, H>,
    after: Actor<C, H>,
    event: WorkspaceEvent<C>,
    found: Discovery,
    finished: Seq<bool>,
    action: WorkspaceAction<C, H>,
)
    requires
        after.handled(before, event, found, finished, action),
        before.scans.phase is Ready,
    ensures
        after.scans.phase is Ready,
{
}

/// Once the workspace serves queries, no event stops it, and neither does a later scan.
pub proof fn serving_lasts<C, H>(
    before: Actor<C, H>,
    after: Actor<C, H>,
    event: WorkspaceEvent<C>,
    found: Discovery,
    finished: Seq<bool>,
    action: WorkspaceAction<C, H>,
)
    requires
        after.handled(before, event, found, finished, action),
        before.serving(),
    ensures
        after.serving(),
{
    ready_phase_lasts(before, after, event, found, finished, action);
}

/// After an event that sets the root, the workspace is ready with that root, and not quiet: a
/// scan is running.
pub proof fn setting_the_root_starts_a_scan<C, H>(
    before: Actor<C, H>,
    after: Actor<C, H>,
    event: WorkspaceEvent<C>,
    found: Discovery,
    finished: Seq<bool>,
    action: WorkspaceAction<C, H>,
)
    requires
        after.handled(before, event, found, finished, action),
        event.new_root() is Some,
    ensures
        crate::uri::text_of(after.scans.workspace_root) == event.new_root(),
        after.scans.queue.in_progress,
        !after.scans.quiet(),
{
}

} // verus!
