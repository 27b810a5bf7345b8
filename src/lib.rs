//! A durable polling job queue: the job model, the claim protocol of the
//! relational store, an in-memory job table with the same semantics, and the
//! decisions of the worker loop.

mod claim;
mod error;
mod laws;
mod postgres;
mod queue;
mod service;
mod table;
mod worker;

pub use claim::{
    after_claim, best_below, claim_order, claimed_jobs, lemma_best_below, lemma_claim_order,
    mark_running, open_at, order_by_schedule, due_ordered, precedes,
};
pub use error::{row_not_found_text, Error};
pub use laws::{
    lemma_claim_then_hidden, lemma_claim_within_table, lemma_claims_disjoint, lemma_clear_resets,
    lemma_completed_job_gone, lemma_exhausted_never_claimed, lemma_nothing_eligible_nothing_claimed,
    lemma_scheduled_job_waits, lemma_three_failures_exhaust,
};
pub use postgres::{ClaimParams, PostgresQueue, CLAIM_JOBS, CLEAR_JOBS, DELETE_JOB, FAIL_JOB, INSERT_JOB};
pub use queue::{
    claim_limit, claim_limit_spec, eligible, job_of, new_record, requeued, running,
    status_code_spec, Job, JobRecord, JobStatus, Message, MAX_BATCH, MAX_FAILED_ATTEMPTS,
};
pub use service::index;
pub use table::{after_fail, fail_overflows, has_id, unique_ids, JobTable};
pub use worker::{ack_for, batch_after_claim, Ack, CLAIM_ERROR_BACKOFF_MS, CONCURRENCY, POLL_INTERVAL_MS};
