use vstd::prelude::*;

verus! {

/// Jobs whose `failed_attempts` reaches this count are never claimed again.
pub const MAX_FAILED_ATTEMPTS: i32 = 3;

/// The largest batch a single claim hands out.
pub const MAX_BATCH: u32 = 100;

/// The payload of a job.
#[derive(Debug, Clone)]
pub enum Message {
    Detail { item: String },
}

impl Message {
    /// A copy of this message.
    pub fn duplicate(&self) -> (r: Message)
        ensures
            r == *self,
    {
        match self {
            Message::Detail { item } => Message::Detail { item: item.clone() },
        }
    }
}

/// The lifecycle state of a stored job. `Failed` is part of the stored
/// encoding, but no operation sets it: a job whose failures reach
/// `MAX_FAILED_ATTEMPTS` stays `Queued` and is simply never claimed again.
#[derive(Debug, Clone, Copy, PartialEq, Eq, Structural)]
pub enum JobStatus {
    Queued,
    Running,
    Failed,
}

pub open spec fn status_code_spec(s: JobStatus) -> i32 {
    match s {
        JobStatus::Queued => 0,
        JobStatus::Running => 1,
        JobStatus::Failed => 2,
    }
}

impl JobStatus {
    /// The compact integer under which the status is persisted.
    pub fn code(&self) -> (r: i32)
        ensures
            r == status_code_spec(*self),
    {
        match self {
            JobStatus::Queued => 0,
            JobStatus::Running => 1,
            JobStatus::Failed => 2,
        }
    }

    /// The status persisted under `code`, if any.
    pub fn from_code(code: i32) -> (r: Option<JobStatus>)
        ensures
            match r {
                Some(s) => status_code_spec(s) == code,
                None => code < 0 || code > 2,
            },
    {
        if code == 0 {
            Some(JobStatus::Queued)
        } else if code == 1 {
            Some(JobStatus::Running)
        } else if code == 2 {
            Some(JobStatus::Failed)
        } else {
            None
        }
    }
}

/// A job as handed to a worker: its identifier (the 128-bit value of its
/// ULID) and its payload.
#[derive(Debug, Clone)]
pub struct Job {
    pub id: u128,
    pub message: Message,
}

/// A stored job: one row of the job table. Timestamps are microseconds
/// since the Unix epoch, UTC.
#[derive(Debug, Clone)]
pub struct JobRecord {
    pub id: u128,
    pub created_at: i64,
    pub updated_at: i64,
    pub scheduled_for: i64,
    pub failed_attempts: i32,
    pub status: JobStatus,
    pub message: Message,
}

/// A job may be claimed at `now` iff it is queued, due, and has failed
/// fewer than `MAX_FAILED_ATTEMPTS` times.
pub open spec fn eligible(r: JobRecord, now: i64) -> bool {
    &&& r.status == JobStatus::Queued
    &&& r.scheduled_for <= now
    &&& r.failed_attempts < MAX_FAILED_ATTEMPTS
}

/// The record of a job just created at `now`.
pub open spec fn new_record(id: u128, message: Message, scheduled_for: Option<i64>, now: i64) -> JobRecord {
    JobRecord {
        id,
        created_at: now,
        updated_at: now,
        scheduled_for: match scheduled_for {
            Some(t) => t,
            None => now,
        },
        failed_attempts: 0,
        status: JobStatus::Queued,
        message,
    }
}

/// The record after being claimed at `now`.
pub open spec fn running(r: JobRecord, now: i64) -> JobRecord {
    JobRecord { status: JobStatus::Running, updated_at: now, ..r }
}

/// The record after a failure reported at `now`: back in the queue, one
/// more failed attempt.
pub open spec fn requeued(r: JobRecord, now: i64) -> JobRecord
    recommends
        r.failed_attempts < i32::MAX,
{
    JobRecord {
        status: JobStatus::Queued,
        updated_at: now,
        failed_attempts: (r.failed_attempts + 1) as i32,
        ..r
    }
}

pub open spec fn job_of(r: JobRecord) -> Job {
    Job { id: r.id, message: r.message }
}

pub open spec fn claim_limit_spec(requested: u32) -> u32 {
    if requested > MAX_BATCH {
        MAX_BATCH
    } else {
        requested
    }
}

/// The batch size actually used for a claim of `requested` jobs: requests
/// above `MAX_BATCH` are capped at `MAX_BATCH`, so that no single claim
/// can take more than that many jobs.
pub fn claim_limit(requested: u32) -> (r: u32)
    ensures
        r == claim_limit_spec(requested),
        r <= MAX_BATCH,
{
    if requested > MAX_BATCH {
        MAX_BATCH
    } else {
        requested
    }
}

impl JobRecord {
    /// A new queued record created at `now`; due at `scheduled_for`, or at
    /// once when none is given.
    pub fn create(id: u128, message: Message, scheduled_for: Option<i64>, now: i64) -> (r: JobRecord)
        ensures
            r == new_record(id, message, scheduled_for, now),
    {
        let due = match scheduled_for {
            Some(t) => t,
            None => now,
        };
        JobRecord {
            id,
            created_at: now,
            updated_at: now,
            scheduled_for: due,
            failed_attempts: 0,
            status: JobStatus::Queued,
            message,
        }
    }

    /// Whether this job may be claimed at `now`.
    pub fn is_eligible(&self, now: i64) -> (r: bool)
        ensures
            r == eligible(*self, now),
    {
        self.status == JobStatus::Queued && self.scheduled_for <= now && self.failed_attempts
            < MAX_FAILED_ATTEMPTS
    }

    /// The job handed to a worker for this record.
    pub fn to_job(&self) -> (r: Job)
        ensures
            r == job_of(*self),
    {
        Job { id: self.id, message: self.message.duplicate() }
    }

    /// A copy of this record.
    pub fn duplicate(&self) -> (r: JobRecord)
        ensures
            r == *self,
    {
        JobRecord {
            id: self.id,
            created_at: self.created_at,
            updated_at: self.updated_at,
            scheduled_for: self.scheduled_for,
            failed_attempts: self.failed_attempts,
            status: self.status,
            message: self.message.duplicate(),
        }
    }

    /// This record once claimed at `now`.
    pub fn to_running(&self, now: i64) -> (r: JobRecord)
        ensures
            r == running(*self, now),
    {
        JobRecord {
            id: self.id,
            created_at: self.created_at,
            updated_at: now,
            scheduled_for: self.scheduled_for,
            failed_attempts: self.failed_attempts,
            status: JobStatus::Running,
            message: self.message.duplicate(),
        }
    }

    /// This record once its failure is reported at `now`.
    pub fn to_requeued(&self, now: i64) -> (r: JobRecord)
        requires
            self.failed_attempts < i32::MAX,
        ensures
            r == requeued(*self, now),
    {
        JobRecord {
            id: self.id,
            created_at: self.created_at,
            updated_at: now,
            scheduled_for: self.scheduled_for,
            failed_attempts: self.failed_attempts + 1,
            status: JobStatus::Queued,
            message: self.message.duplicate(),
        }
    }
}

} // verus!
