//! Handles to submitted jobs.

use super::task::JobOutcome;
use std::sync::atomic::AtomicU8;
use std::sync::atomic::Ordering;
use std::sync::Arc;
use vstd::prelude::*;

verus! {

/// Flag value of a job that has not completed.
pub const FLAG_PENDING: u8 = 0;

/// Flag value of a job that completed with success.
pub const FLAG_SUCCEEDED: u8 = 1;

/// Flag value of a job that completed with failure.
pub const FLAG_FAILED: u8 = 2;

/// The flag value that stands for an outcome.
pub open spec fn spec_flag_of(outcome: JobOutcome) -> u8 {
    match outcome {
        JobOutcome::Succeeded => FLAG_SUCCEEDED,
        JobOutcome::Failed => FLAG_FAILED,
    }
}

/// The flag value that stands for an outcome.
pub fn flag_of(outcome: JobOutcome) -> (v: u8)
    ensures
        v == spec_flag_of(outcome),
        v != FLAG_PENDING,
{
    match outcome {
        JobOutcome::Succeeded => FLAG_SUCCEEDED,
        JobOutcome::Failed => FLAG_FAILED,
    }
}

/// What a flag value says of the job: `None` while it has not completed,
/// its outcome afterwards.
pub open spec fn spec_outcome_of(flag: u8) -> Option<JobOutcome> {
    if flag == FLAG_PENDING {
        None
    } else if flag == FLAG_SUCCEEDED {
        Some(JobOutcome::Succeeded)
    } else {
        Some(JobOutcome::Failed)
    }
}

/// What a flag value says of the job: `None` while it has not completed,
/// its outcome afterwards.
pub fn outcome_of(flag: u8) -> (o: Option<JobOutcome>)
    ensures
        o == spec_outcome_of(flag),
{
    if flag == FLAG_PENDING {
        None
    } else if flag == FLAG_SUCCEEDED {
        Some(JobOutcome::Succeeded)
    } else {
        Some(JobOutcome::Failed)
    }
}

/// Whether a flag value says that the job has completed, with whatever
/// outcome.
pub fn flag_is_set(flag: u8) -> (set: bool)
    ensures
        set == (spec_outcome_of(flag) is Some),
        set == (flag != FLAG_PENDING),
{
    flag != FLAG_PENDING
}

/// Handle to a submitted job.
///
/// Shares the job's completion flag, which goes once from unset to set, and
/// carries the job's identifier. It does not own the job.
#[derive(Debug, Clone)]
pub struct JobHandle {
    completed: Arc<AtomicU8>,
    id: u64,
}

impl JobHandle {
    /// The identifier of the job, as a mathematical value.
    pub closed spec fn spec_id(&self) -> u64 {
        self.id
    }

    /// A handle for the job `id` that shares `completed`.
    pub(crate) fn new(completed: Arc<AtomicU8>, id: u64) -> (h: JobHandle)
        ensures
            h.spec_id() == id,
    {
        JobHandle { completed, id }
    }

    /// Check if the job has completed, with success or failure. Reads the
    /// shared flag; once `true`, it stays `true`.
    pub fn is_complete(&self) -> bool {
        flag_is_set(self.completed.load(Ordering::Acquire))
    }

    /// How the job ended: `None` while it has not completed.
    pub fn outcome(&self) -> Option<JobOutcome> {
        outcome_of(self.completed.load(Ordering::Acquire))
    }

    /// Get the job ID.
    pub fn id(&self) -> (id: u64)
        ensures
            id == self.spec_id(),
    {
        self.id
    }
}

} // verus!
