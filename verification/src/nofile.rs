//! Requests to the system for file descriptors.
//!
//! An answer can be made by a request alone, so whoever holds one knows that the request
//! was made, and for how many.

use crate::limits::{nofile_outcome, NofileOutcome};
use vstd::prelude::*;

verus! {

#[verifier::external_type_specification]
#[verifier::external_body]
pub struct ExIoError(std::io::Error);

/// The answer of the system to one request for file descriptors.
#[derive(Debug)]
pub struct NofileAnswer {
    desired: u64,
    answer: Result<u64, std::io::Error>,
}

/// Calls `rlimit::increase_nofile_limit` with `desired`, which raises the soft limit of
/// the process on open files towards that number, or, on a system that has no such limit,
/// does nothing and returns it. Claimed: the number handed to the call is `desired`.
/// Nothing is claimed of what the call returns: the limit it reports and the error both
/// come from the system.
#[verifier::external_body]
pub(crate) fn raise_nofile_limit(desired: u64) -> (raised: NofileAnswer)
    ensures
        raised.requested() == desired,
{
    NofileAnswer { desired, answer: rlimit::increase_nofile_limit(desired) }
}

impl NofileAnswer {
    /// The number that the system was asked for.
    pub closed spec fn requested(self) -> u64 {
        self.desired
    }

    /// What the system answered.
    pub closed spec fn answer(self) -> Result<u64, std::io::Error> {
        self.answer
    }

    /// What the answer means.
    pub fn outcome(&self) -> (outcome: NofileOutcome)
        ensures
            outcome.reports(self.requested(), self.answer()),
    {
        nofile_outcome(self.desired, &self.answer)
    }
}

} // verus!
