use vstd::prelude::*;
use crate::queue::{claim_limit, claim_limit_spec, status_code_spec, JobStatus, MAX_FAILED_ATTEMPTS};

verus! {

/// Inserts a job: id, created_at, updated_at, scheduled_for,
/// failed_attempts, status, message.
pub const INSERT_JOB: &'static str = "INSERT INTO queue
    (id, created_at, updated_at, scheduled_for, failed_attempts, status, message)
    VALUES ($1, $2, $3, $4, $5, $6, $7)";

/// Deletes job $1.
pub const DELETE_JOB: &'static str = "DELETE FROM queue WHERE id = $1";

/// Records a failure of job $3 at $2 and sets its status to $1.
pub const FAIL_JOB: &'static str = "UPDATE queue
    SET status = $1, updated_at = $2, failed_attempts = failed_attempts + 1
    WHERE id = $3";

/// Claims, in one statement, up to $6 jobs with status $3, due by $4 and
/// with fewer than $5 failures, oldest `scheduled_for` first, skipping rows
/// that another claim holds locked; sets them to status $1 at $2 and
/// returns them.
pub const CLAIM_JOBS: &'static str = "UPDATE queue
    SET status = $1, updated_at = $2
    WHERE id IN (
        SELECT id
        FROM queue
        WHERE status = $3 AND scheduled_for <= $4 AND failed_attempts < $5
        ORDER BY scheduled_for
        FOR UPDATE SKIP LOCKED
        LIMIT $6
    )
    RETURNING *";

/// Deletes every job.
pub const CLEAR_JOBS: &'static str = "DELETE FROM queue";

/// The values bound to `CLAIM_JOBS`, but for the two timestamps.
#[derive(Debug, Clone, Copy, PartialEq, Eq, Structural)]
pub struct ClaimParams {
    /// The status claimed jobs take.
    pub running: i32,
    /// The status an eligible job has.
    pub queued: i32,
    /// Jobs with this many failures or more are not claimed.
    pub max_failed_attempts: i32,
    /// The largest number of jobs claimed.
    pub limit: u32,
}

/// A job queue stored in one PostgreSQL table, reached through the
/// connection pool `db` (a `sqlx::PgPool` in a running service).
#[derive(Debug)]
pub struct PostgresQueue<P> {
    db: P,
    max_attempts: u32,
}

impl<P> PostgresQueue<P> {
    /// The connection pool the queue works on.
    pub closed spec fn pool_spec(&self) -> P {
        self.db
    }

    /// The configured attempt budget. Eligibility is gated by
    /// `MAX_FAILED_ATTEMPTS`, not by this value.
    pub closed spec fn max_attempts_spec(&self) -> u32 {
        self.max_attempts
    }

    /// A queue over the connection pool `db`.
    pub fn new(db: P) -> (r: PostgresQueue<P>)
        ensures
            r.pool_spec() == db,
            r.max_attempts_spec() == 5,
    {
        PostgresQueue { db, max_attempts: 5 }
    }

    /// The connection pool the queue works on.
    pub fn pool(&self) -> (r: &P)
        ensures
            *r == self.pool_spec(),
    {
        &self.db
    }

    /// The values bound to `CLAIM_JOBS` for a claim of `number_of_jobs`.
    pub fn claim_params(&self, number_of_jobs: u32) -> (r: ClaimParams)
        ensures
            r == (ClaimParams {
                running: status_code_spec(JobStatus::Running),
                queued: status_code_spec(JobStatus::Queued),
                max_failed_attempts: MAX_FAILED_ATTEMPTS,
                limit: claim_limit_spec(number_of_jobs),
            }),
    {
        ClaimParams {
            running: JobStatus::Running.code(),
            queued: JobStatus::Queued.code(),
            max_failed_attempts: MAX_FAILED_ATTEMPTS,
            limit: claim_limit(number_of_jobs),
        }
    }

    /// The status bound to `FAIL_JOB`: a failed job is queued again.
    pub fn fail_status(&self) -> (r: i32)
        ensures
            r == status_code_spec(JobStatus::Queued),
    {
        JobStatus::Queued.code()
    }

    /// The status bound to `INSERT_JOB`: a new job is queued.
    pub fn push_status(&self) -> (r: i32)
        ensures
            r == status_code_spec(JobStatus::Queued),
    {
        JobStatus::Queued.code()
    }

    /// The configured attempt budget.
    pub fn max_attempts(&self) -> (r: u32)
        ensures
            r == self.max_attempts_spec(),
    {
        self.max_attempts
    }
}

} // verus!
