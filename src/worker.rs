use vstd::prelude::*;
use crate::error::Error;
use crate::queue::Job;

verus! {

/// How many jobs a worker claims per poll, and how many handlers it runs at
/// once.
pub const CONCURRENCY: u32 = 50;

/// How long a worker waits after a failed claim, in milliseconds.
pub const CLAIM_ERROR_BACKOFF_MS: u64 = 500;

/// How long a worker waits after each batch, in milliseconds.
pub const POLL_INTERVAL_MS: u64 = 125;

/// The acknowledgement a worker sends for a handled job.
#[derive(Debug, Clone, Copy, PartialEq, Eq, Structural)]
pub enum Ack {
    /// The handler succeeded: delete the job.
    Complete(u128),
    /// The handler failed: record the failure and queue the job again.
    Fail(u128),
}

/// The acknowledgement for job `job_id` whose handler returned `outcome`.
pub fn ack_for(job_id: u128, outcome: &Result<(), Error>) -> (r: Ack)
    ensures
        outcome is Ok ==> r == Ack::Complete(job_id),
        outcome is Err ==> r == Ack::Fail(job_id),
{
    match outcome {
        Ok(()) => Ack::Complete(job_id),
        Err(_) => Ack::Fail(job_id),
    }
}

/// What a worker does with the result of a claim: the jobs to dispatch, and
/// the milliseconds to wait before dispatching them. A failed claim is an
/// empty batch after a back-off; the error does not stop the worker.
pub fn batch_after_claim(claimed: Result<Vec<Job>, Error>) -> (r: (Vec<Job>, u64))
    ensures
        claimed matches Ok(jobs) ==> r.0@ == jobs@ && r.1 == 0,
        claimed is Err ==> r.0@.len() == 0 && r.1 == CLAIM_ERROR_BACKOFF_MS,
{
    match claimed {
        Ok(jobs) => (jobs, 0),
        Err(_) => (Vec::new(), CLAIM_ERROR_BACKOFF_MS),
    }
}

} // verus!
