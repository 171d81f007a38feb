//! Coalescing queue for full-workspace scans.
//!
//! While a scan runs, the latest request replaces any earlier one that waits; when the scan
//! finishes, the waiting one starts.
use vstd::prelude::*;

verus! {

/// How a scan goes about the workspace.
#[derive(Debug, Clone)]
pub enum ScanKind {
    /// Index the workspace, these paths first.
    Prioritized { initial_paths: Vec<String> },
    /// Re-scan everything.
    Full,
}

/// What one scan is asked to do; `C` is what its caller is notified through.
#[derive(Debug)]
pub struct ScanArgs<C> {
    pub root: String,
    pub kind: ScanKind,
    /// The source paths that were configured when the scan was asked for.
    pub source_paths: Vec<String>,
    /// Fired when the scan completes; dropped where the request is superseded.
    pub completion_tx: Option<C>,
    /// The root generation when the scan was asked for; a scan of another generation is
    /// superseded and its results are discarded.
    pub expected_generation: u64,
    /// The index is reset before the scan.
    pub reset_before_scan: bool,
}

/// Holds at most one waiting scan and one running scan.
pub struct ScanQueue<C> {
    pub pending: Option<ScanArgs<C>>,
    pub in_progress: bool,
}

impl<C> ScanQueue<C> {
    /// The idle queue.
    pub fn new() -> (r: Self)
        ensures
            r.pending is None,
            !r.in_progress,
    {
        ScanQueue { pending: None, in_progress: false }
    }

    /// Whether a scan is running.
    pub fn is_in_progress(&self) -> (r: bool)
        ensures
            r == self.in_progress,
    {
        self.in_progress
    }

    /// The queue with the request waiting, in place of any that waited before.
    pub open spec fn requested(self, args: ScanArgs<C>) -> Self {
        ScanQueue { pending: Some(args), in_progress: self.in_progress }
    }

    /// What starts now: the waiting scan, where none is running.
    pub open spec fn startable(self) -> Option<ScanArgs<C>> {
        if self.in_progress {
            None
        } else {
            self.pending
        }
    }

    /// The queue once what can start has started.
    pub open spec fn started(self) -> Self {
        if self.startable() is Some {
            ScanQueue { pending: None, in_progress: true }
        } else {
            self
        }
    }

    /// The queue once the running scan has finished.
    pub open spec fn finished(self) -> Self {
        ScanQueue { pending: self.pending, in_progress: false }
    }

    /// Lets the request wait; a request that waited before is dropped.
    pub fn request(&mut self, args: ScanArgs<C>)
        ensures
            *final(self) == old(self).requested(args),
    {
        self.pending = Some(args);
    }

    /// Starts the waiting scan, where none is running.
    pub fn try_start(&mut self) -> (r: Option<ScanArgs<C>>)
        ensures
            r == old(self).startable(),
            *final(self) == old(self).started(),
    {
        if self.in_progress {
            return None;
        }
        match self.pending.take() {
            Some(args) => {
                self.in_progress = true;
                Some(args)
            },
            None => None,
        }
    }

    /// Marks the running scan as finished.
    pub fn completed(&mut self)
        ensures
            *final(self) == old(self).finished(),
    {
        self.in_progress = false;
    }
}

/// Of the requests that arrive while a scan runs, only the last one ever starts: it starts when
/// the scan has finished, and nothing waits behind it.
pub proof fn last_request_wins<C>(queue: ScanQueue<C>, first: ScanArgs<C>, last: ScanArgs<C>)
    requires
        queue.in_progress,
    ensures
        queue.requested(first).startable() is None,
        queue.requested(first).requested(last).finished().startable() == Some(last),
        queue.requested(first).requested(last).finished().started() == (ScanQueue::<C> {
            pending: None,
            in_progress: true,
        }),
{
}

/// While a scan runs, no other starts.
pub proof fn one_scan_at_a_time<C>(queue: ScanQueue<C>, args: ScanArgs<C>)
    ensures
        queue.requested(args).started().startable() is None,
        queue.requested(args).started().in_progress,
{
}

} // verus!
