//! The one-shot effects of the workspace actor.
use vstd::prelude::*;

verus! {

/// One-shot effects, consumed once by a subscriber.
#[derive(Debug)]
pub enum WorkspaceEffect {
    /// A workspace scan has finished.
    ScanComplete,
    /// The workspace root was switched to a new path.
    RootChanged { new_root: String },
}

} // verus!
