//! What can go wrong in a run, by kind.

use vstd::prelude::*;
use crate::origins::OriginError;
use crate::paths::PathError;

verus! {

/// A manifest, or what an origin served for it, is not acceptable.
#[derive(Clone, Copy, Debug, PartialEq, Eq, Structural)]
pub enum ValidationError {
    /// The manifest names no version.
    EmptyVersion,
    /// A declared path is not a plain relative path.
    UnsafePath(PathError),
    /// A content identifier is empty or holds a path separator.
    InvalidHash,
    /// An object has another length than the manifest declares.
    SizeMismatch { expected: u64, actual: u64 },
}

/// The store or the staging tree is not in the state that the run left it in.
#[derive(Clone, Copy, Debug, PartialEq, Eq, Structural)]
pub enum ConsistencyError {
    /// A file's place in the fresh staging tree is taken.
    DestinationExists,
    /// An object that was ensured is no longer in the store.
    MissingObject,
    /// The run was told of something that it had not asked for.
    UnexpectedEvent,
}

/// Why a run stops.
#[derive(Clone, Copy, Debug, PartialEq, Eq, Structural)]
pub enum PullError {
    /// The origin list is unusable.
    Configuration(OriginError),
    /// An origin could not be reached, or did not answer in time.
    Transport,
    /// An origin answered with a status other than success.
    Protocol { status: u16 },
    /// See `ValidationError`.
    Validation(ValidationError),
    /// See `ConsistencyError`.
    Consistency(ConsistencyError),
    /// A directory, a rename, a permission change or a flush failed.
    Filesystem,
    /// The platform cannot replace the pointer in one step.
    UnsupportedPlatform,
}

impl PullError {
    /// Whether the next origin may still serve what this one did not: only
    /// a failure of the connection or of the answer's status is the origin's
    /// own.
    pub open spec fn retryable(self) -> bool {
        self is Transport || self is Protocol
    }

    /// Tests `retryable`.
    pub fn is_retryable(&self) -> (b: bool)
        ensures
            b == self.retryable(),
    {
        match self {
            PullError::Transport => true,
            PullError::Protocol { .. } => true,
            _ => false,
        }
    }
}

} // verus!
