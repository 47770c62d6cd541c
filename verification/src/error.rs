//! What can go wrong while a ladder is built or walked.

use vstd::prelude::*;

verus! {

/// A failure of the pool engine. Each one is fatal to the run: none is
/// retried.
#[derive(Clone, Copy, Debug, PartialEq, Eq, Structural)]
pub enum PoolError {
    /// A leaf's depth did not fit the tree, or no output key could be made.
    TreeConstruction,
    /// A pool was built against a smaller pool that lacks one of the subsets
    /// it re-locks into.
    MissingSubpool,
    /// The tree to be spent has no leaf for the requested exit.
    MissingLeaf,
    /// Fewer than three participants.
    TooFewParticipants,
    /// More participants than a set of them can be keyed by.
    TooManyParticipants,
    /// Fewer than two participants remain: there is nothing left to spend.
    WalkFinished,
    /// No coin covers the fee of the fee-bumping child.
    InsufficientFunds,
}

impl PoolError {
    /// A short description of the failure.
    pub open spec fn spec_message(self) -> Seq<char> {
        match self {
            PoolError::TreeConstruction => "the commitment tree could not be built"@,
            PoolError::MissingSubpool => "the smaller pool lacks a subset"@,
            PoolError::MissingLeaf => "the tree has no leaf for this exit"@,
            PoolError::TooFewParticipants => "a pool needs at least 3 participants"@,
            PoolError::TooManyParticipants => "a pool holds at most 64 participants"@,
            PoolError::WalkFinished => "every participant has left"@,
            PoolError::InsufficientFunds => "no coin covers the fee"@,
        }
    }

    /// A short description of the failure.
    pub fn message(&self) -> (text: String)
        ensures
            text@ == self.spec_message(),
    {
        match self {
            PoolError::TreeConstruction => "the commitment tree could not be built".to_string(),
            PoolError::MissingSubpool => "the smaller pool lacks a subset".to_string(),
            PoolError::MissingLeaf => "the tree has no leaf for this exit".to_string(),
            PoolError::TooFewParticipants => "a pool needs at least 3 participants".to_string(),
            PoolError::TooManyParticipants => "a pool holds at most 64 participants".to_string(),
            PoolError::WalkFinished => "every participant has left".to_string(),
            PoolError::InsufficientFunds => "no coin covers the fee".to_string(),
        }
    }
}

} // verus!
