//! Why a request cannot be answered, and what its sender is told.

use vstd::prelude::*;

verus! {

/// The ways in which answering a request fails.
#[derive(Clone, Copy, Debug, PartialEq, Eq, Structural)]
pub enum Failure {
    /// What was asked for by its identifier does not exist.
    NotFound,
    /// The store could not be reached or could not answer.
    Storage,
    /// A provider outside this system gave no answer that can be used.
    Upstream,
}

/// What the sender of a request is told of a failure.
#[derive(Clone, Copy, Debug, PartialEq, Eq, Structural)]
pub enum Refusal {
    /// That what was asked for does not exist.
    NotFound,
    /// That the request failed, and nothing of why.
    ServerError,
}

impl Failure {
    /// What the sender is told: that nothing was found where that is so, and
    /// of every other failure only that it happened.
    pub open spec fn shown(self) -> Refusal {
        match self {
            Failure::NotFound => Refusal::NotFound,
            Failure::Storage => Refusal::ServerError,
            Failure::Upstream => Refusal::ServerError,
        }
    }

    /// What the sender is told of this failure.
    pub fn refusal(&self) -> (told: Refusal)
        ensures
            told == self.shown(),
    {
        match self {
            Failure::NotFound => Refusal::NotFound,
            Failure::Storage => Refusal::ServerError,
            Failure::Upstream => Refusal::ServerError,
        }
    }
}

} // verus!
