//! The failure taxonomy. Every operation either commits in full or fails
//! with one of these and leaves the state untouched.

use vstd::prelude::*;

verus! {

/// Why an operation was rejected.
#[derive(Clone, Copy, Debug, PartialEq, Eq, Structural)]
pub enum VotingError {
    /// An instance already exists for this deployment.
    AlreadyInitialized,
    /// The submitted ballot lists the same candidate twice.
    DuplicateCandidateInBallot,
    /// The submitted ballot lists an unregistered candidate.
    InvalidCandidateInBallot,
    /// The winner has already been decided and is locked.
    AlreadyDecided,
    /// Only the administrator may decide the winner.
    NotAuthorized,
}

} // verus!
