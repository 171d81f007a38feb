//! Lifecycle of the workspace: uninitialized, then ready.
use vstd::prelude::*;

use super::config::{Discovery, WorkspaceConfig};
use crate::text::{clone_strings, texts};

verus! {

/// Snapshot of workspace state, with the source paths already resolved.
#[derive(Debug, Clone)]
pub struct WorkspaceData {
    /// Absolute path to the workspace root.
    pub root: String,
    /// The resolved source paths, each once.
    pub source_paths: Vec<String>,
    /// Ignore patterns in effect.
    pub ignore_patterns: Vec<String>,
}

impl WorkspaceData {
    /// The snapshot that the configuration gives, with what was found on disk.
    pub open spec fn of(&self, config: WorkspaceConfig, found: Discovery) -> bool {
        &&& self.root@ == config.root@
        &&& texts(self.source_paths@) == config.sources(found)
        &&& self.ignore_patterns@ == config.ignore_patterns@
    }

    /// The snapshot of the configuration.
    pub fn from_config(config: &WorkspaceConfig, found: &Discovery) -> (r: Self)
        ensures
            r.of(*config, *found),
    {
        WorkspaceData {
            root: config.root.clone(),
            source_paths: config.resolve_sources(found),
            ignore_patterns: clone_strings(config.ignore_patterns.as_slice()),
        }
    }
}

/// Lifecycle phase of the workspace. There is no way back to `Uninitialized`.
#[derive(Debug, Clone)]
pub enum WorkspacePhase {
    Uninitialized,
    Ready(WorkspaceData),
}

impl Default for WorkspacePhase {
    fn default() -> (r: Self)
        ensures
            r is Uninitialized,
    {
        WorkspacePhase::Uninitialized
    }
}

impl WorkspacePhase {
    /// The state of the workspace, or `None` before it is initialized.
    pub fn ready(&self) -> (r: Option<&WorkspaceData>)
        ensures
            match r {
                Some(data) => *self == WorkspacePhase::Ready(*data),
                None => self is Uninitialized,
            },
    {
        match self {
            WorkspacePhase::Ready(data) => Some(data),
            WorkspacePhase::Uninitialized => None,
        }
    }

    /// Applies `f` to the state if the workspace is ready; else does nothing.
    pub fn with_ready<F, T>(&self, f: F) -> (r: Option<T>) where F: FnOnce(&WorkspaceData) -> T
        requires
            self matches WorkspacePhase::Ready(data) ==> f.requires((&data,)),
        ensures
            match r {
                Some(t) => self matches WorkspacePhase::Ready(data) && f.ensures((&data,), t),
                None => self is Uninitialized,
            },
    {
        match self {
            WorkspacePhase::Ready(data) => Some(f(data)),
            WorkspacePhase::Uninitialized => None,
        }
    }

    /// Becomes ready, or replaces the state it is ready with.
    pub fn set_ready(&mut self, data: WorkspaceData)
        ensures
            *final(self) == WorkspacePhase::Ready(data),
    {
        *self = WorkspacePhase::Ready(data);
    }
}

} // verus!
