//! The failure taxonomy of the synchronization engine.

use vstd::prelude::*;

verus! {

/// Why a synchronization run stopped. Every stage reports its own kind and
/// the orchestrator surfaces it unchanged. `StageError` and `CommitError`
/// cannot arise from the model store itself; the driver of a real backend
/// reports its staging and committing failures under them. `NonFastForward`
/// is the one kind that is retryable by simply running again.
#[derive(Debug)]
pub enum SyncError {
    /// The store could not be opened nor initialized.
    NotARepository,
    /// Paths were already in conflict when scanning started; they must be
    /// resolved by hand before another run.
    UnresolvedConflict(Vec<String>),
    /// A path could not be read or written into the index.
    StageError,
    /// The commit could not be constructed or recorded.
    CommitError,
    /// The transport failed during fetch or push.
    NetworkError,
    /// Credentials could not be resolved or validated.
    AuthError,
    /// Local and remote history diverged with overlapping edits to the
    /// listed paths; they must be resolved by hand.
    MergeConflict(Vec<String>),
    /// The push was rejected because the remote advanced after our fetch.
    NonFastForward,
}

} // verus!
