use vstd::prelude::*;
use crate::claim::{
    after_claim, best_below, claim_order, claimed_jobs, lemma_best_below, lemma_claim_order,
    mark_running,
};
use crate::error::Error;
use crate::queue::{
    claim_limit, claim_limit_spec, job_of, new_record, requeued, running, Job, JobRecord, Message,
};

verus! {

/// Some row holds the identifier `id`.
pub open spec fn has_id(rows: Seq<JobRecord>, id: u128) -> bool {
    exists|i: int| 0 <= i < rows.len() && (#[trigger] rows[i]).id == id
}

/// No two rows share an identifier.
pub open spec fn unique_ids(rows: Seq<JobRecord>) -> bool {
    forall|i: int, j: int|
        0 <= i < rows.len() && 0 <= j < rows.len() && i != j ==> (#[trigger] rows[i]).id != (
        #[trigger] rows[j]).id
}

/// The rows after a failure of job `id` is reported at `now`.
pub open spec fn after_fail(rows: Seq<JobRecord>, id: u128, now: i64) -> Seq<JobRecord> {
    rows.map_values(
        |r: JobRecord|
            if r.id == id {
                requeued(r, now)
            } else {
                r
            },
    )
}

/// A failure of job `id` cannot be recorded: its counter is at its maximum.
pub open spec fn fail_overflows(rows: Seq<JobRecord>, id: u128) -> bool {
    exists|i: int|
        0 <= i < rows.len() && (#[trigger] rows[i]).id == id && rows[i].failed_attempts
            == i32::MAX
}

/// The positions held in `order`, as integers.
spec fn positions(order: Seq<usize>) -> Seq<int> {
    order.map_values(|x: usize| x as int)
}

/// Relies on `chrono::Utc::now` and `DateTime::timestamp_micros`: the
/// current time in microseconds since the Unix epoch. Nothing is known of
/// the value.
#[verifier::external_body]
fn now_micros() -> i64 {
    chrono::Utc::now().timestamp_micros()
}

/// Relies on `ulid::Ulid::new` and `u128::from(Ulid)`: a fresh ULID, from
/// the clock and a random source, as its 128-bit value. Nothing is known of
/// the value.
#[verifier::external_body]
fn new_job_id() -> u128 {
    u128::from(ulid::Ulid::new())
}

/// An in-memory job table with the semantics of the relational store: each
/// operation is atomic, so concurrent callers sharing it behind a lock never
/// claim the same job twice.
pub struct JobTable {
    rows: Vec<JobRecord>,
}

impl View for JobTable {
    type V = Seq<JobRecord>;

    closed spec fn view(&self) -> Seq<JobRecord> {
        self.rows@
    }
}

impl JobTable {
    pub open spec fn wf(&self) -> bool {
        unique_ids(self@)
    }

    /// An empty table.
    pub fn new() -> (r: JobTable)
        ensures
            r.wf(),
            r@ == Seq::<JobRecord>::empty(),
    {
        JobTable { rows: Vec::new() }
    }

    /// The number of stored jobs, whatever their state.
    pub fn len(&self) -> (r: usize)
        ensures
            r == self@.len(),
    {
        self.rows.len()
    }

    /// A copy of the stored job with identifier `id`, if any.
    pub fn get(&self, id: u128) -> (r: Option<JobRecord>)
        requires
            self.wf(),
        ensures
            match r {
                Some(rec) => exists|i: int|
                    0 <= i < self@.len() && #[trigger] self@[i] == rec && rec.id == id,
                None => !has_id(self@, id),
            },
    {
        let mut i: usize = 0;
        while i < self.rows.len()
            invariant
                0 <= i <= self@.len(),
                forall|j: int| 0 <= j < i ==> (#[trigger] self@[j]).id != id,
            decreases self@.len() - i,
        {
            if self.rows[i].id == id {
                let rec = self.rows[i].duplicate();
                assert(self@[i as int] == rec);
                return Some(rec);
            }
            i += 1;
        }
        None
    }

    /// Stores a new queued job with identifier `id`, created at `now` and due
    /// at `scheduled_for` (at `now` when none is given). An identifier
    /// already in the table is refused with `Internal`, as the store's unique
    /// key refuses it.
    pub fn insert_job(
        &mut self,
        id: u128,
        message: Message,
        scheduled_for: Option<i64>,
        now: i64,
    ) -> (r: Result<u128, Error>)
        requires
            old(self).wf(),
        ensures
            final(self).wf(),
            has_id(old(self)@, id) <==> r is Err,
            r is Err ==> (r matches Err(e) && e is Internal) && final(self)@ == old(self)@,
            r is Ok ==> r == Ok::<u128, Error>(id) && final(self)@ == old(self)@.push(
                new_record(id, message, scheduled_for, now),
            ),
    {
        let mut i: usize = 0;
        while i < self.rows.len()
            invariant
                self@ == old(self)@,
                self.wf(),
                0 <= i <= self@.len(),
                forall|j: int| 0 <= j < i ==> (#[trigger] self@[j]).id != id,
            decreases self@.len() - i,
        {
            if self.rows[i].id == id {
                assert(self@[i as int].id == id);
                return Err(Error::Internal(String::from_str("duplicate job id")));
            }
            i += 1;
        }
        let rec = JobRecord::create(id, message, scheduled_for, now);
        self.rows.push(rec);
        Ok(id)
    }

    /// Stores a new queued job under a fresh identifier, created now and due
    /// at `scheduled_for` (at once when none is given), and returns the
    /// identifier.
    pub fn push(&mut self, message: Message, scheduled_for: Option<i64>) -> (r: Result<
        u128,
        Error,
    >)
        requires
            old(self).wf(),
        ensures
            final(self).wf(),
            r is Err ==> (r matches Err(e) && e is Internal) && old(self)@.len() > 0,
            r is Err ==> final(self)@ == old(self)@,
            r matches Ok(id) ==> !has_id(old(self)@, id) && exists|now: i64|
                final(self)@ == old(self)@.push(
                    #[trigger] new_record(id, message, scheduled_for, now),
                ),
    {
        let now = now_micros();
        let id = new_job_id();
        let ghost m = message;
        let r = self.insert_job(id, message, scheduled_for, now);
        proof {
            if r is Ok {
                assert(r->Ok_0 == id);
                assert(self@ == old(self)@.push(new_record(id, m, scheduled_for, now)));
            }
        }
        r
    }

    /// Claims at `now` up to `claim_limit(number_of_jobs)` eligible jobs,
    /// oldest `scheduled_for` first (ties in storage order), marks them
    /// running, and returns them in that order.
    pub fn pull_at(&mut self, number_of_jobs: u32, now: i64) -> (r: Vec<Job>)
        requires
            old(self).wf(),
        ensures
            final(self).wf(),
            r@ == claimed_jobs(old(self)@, now, claim_limit_spec(number_of_jobs) as nat),
            final(self)@ == after_claim(old(self)@, now, claim_limit_spec(number_of_jobs) as nat),
    {
        let limit = claim_limit(number_of_jobs);
        let ghost rows = self@;
        let n = self.rows.len();
        let mut picked: Vec<bool> = Vec::new();
        let mut k: usize = 0;
        while k < n
            invariant
                k <= n,
                picked@.len() == k,
                forall|j: int| 0 <= j < k ==> !(#[trigger] picked@[j]),
            decreases n - k,
        {
            picked.push(false);
            k += 1;
        }
        let mut order: Vec<usize> = Vec::new();
        let mut round: u32 = 0;
        while round < limit
            invariant
                self@ == rows,
                n == rows.len(),
                picked@.len() == n,
                round <= limit,
                positions(order@) == claim_order(rows, now, round as nat),
                forall|j: int| 0 <= j < n ==> #[trigger] picked@[j] == positions(order@).contains(j),
            decreases limit - round,
        {
            let ghost taken = positions(order@);
            let mut found = false;
            let mut best: usize = 0;
            let mut i: usize = 0;
            while i < n
                invariant
                    self@ == rows,
                    n == rows.len(),
                    picked@.len() == n,
                    taken == positions(order@),
                    forall|j: int| 0 <= j < n ==> #[trigger] picked@[j] == taken.contains(j),
                    i <= n,
                    found ==> best < i,
                    (if found {
                        best as int
                    } else {
                        -1
                    }) == best_below(rows, now, taken, i as int),
                decreases n - i,
            {
                proof {
                    lemma_best_below(rows, now, taken, i as int);
                }
                if !picked[i] && self.rows[i].is_eligible(now) && (!found
                    || self.rows[i].scheduled_for < self.rows[best].scheduled_for) {
                    found = true;
                    best = i;
                }
                i += 1;
            }
            if found {
                proof {
                    lemma_best_below(rows, now, taken, n as int);
                }
                order.push(best);
                picked.set(best, true);
                assert(positions(order@) =~= taken.push(best as int));
                assert forall|j: int| 0 <= j < n implies #[trigger] picked@[j] == positions(
                    order@,
                ).contains(j) by {
                    let t2 = taken.push(best as int);
                    if j == best as int {
                        assert(t2[taken.len() as int] == j);
                    } else {
                        if taken.contains(j) {
                            let m = choose|m: int| 0 <= m < taken.len() && taken[m] == j;
                            assert(t2[m] == j);
                        }
                        if t2.contains(j) {
                            let m = choose|m: int| 0 <= m < t2.len() && t2[m] == j;
                            assert(m < taken.len());
                            assert(taken[m] == j);
                        }
                    }
                }
            }
            round += 1;
        }
        let ghost o = claim_order(rows, now, limit as nat);
        proof {
            lemma_claim_order(rows, now, limit as nat);
        }
        let mut out: Vec<Job> = Vec::new();
        let mut k: usize = 0;
        while k < order.len()
            invariant
                self@ == rows,
                positions(order@) == o,
                forall|m: int| 0 <= m < o.len() ==> 0 <= #[trigger] o[m] < rows.len(),
                k <= order@.len(),
                out@ == o.take(k as int).map_values(|i: int| job_of(rows[i])),
            decreases order@.len() - k,
        {
            let idx = order[k];
            assert(o[k as int] == idx as int);
            let job = self.rows[idx].to_job();
            out.push(job);
            assert(o.take(k + 1) =~= o.take(k as int).push(o[k as int]));
            k += 1;
        }
        assert(o.take(order@.len() as int) =~= o);
        let mut i: usize = 0;
        while i < n
            invariant
                n == rows.len(),
                self@.len() == n,
                picked@.len() == n,
                forall|j: int| 0 <= j < n ==> #[trigger] picked@[j] == o.contains(j),
                i <= n,
                mark_running(rows, o, now).len() == n,
                forall|j: int| 0 <= j < i ==> #[trigger] self@[j] == mark_running(rows, o, now)[j],
                forall|j: int| i <= j < n ==> #[trigger] self@[j] == rows[j],
            decreases n - i,
        {
            assert(0 <= i < rows.len());
            assert(mark_running(rows, o, now)[i as int] == (if o.contains(i as int) {
                running(rows[i as int], now)
            } else {
                rows[i as int]
            }));
            if picked[i] {
                let rec = self.rows[i].to_running(now);
                self.rows.set(i, rec);
            }
            assert(self@[i as int] == mark_running(rows, o, now)[i as int]);
            i += 1;
        }
        assert(self@ =~= mark_running(rows, o, now));
        assert forall|a: int, b: int|
            0 <= a < self@.len() && 0 <= b < self@.len() && a != b implies (
            #[trigger] self@[a]).id != (#[trigger] self@[b]).id by {
            assert(self@[a].id == rows[a].id);
            assert(self@[b].id == rows[b].id);
        }
        out
    }

    /// Claims, at the current time, up to `claim_limit(number_of_jobs)`
    /// eligible jobs, oldest first, marks them running and returns them.
    pub fn pull(&mut self, number_of_jobs: u32) -> (r: Vec<Job>)
        requires
            old(self).wf(),
        ensures
            final(self).wf(),
            exists|now: i64|
                r@ == claimed_jobs(old(self)@, now, claim_limit_spec(number_of_jobs) as nat)
                    && final(self)@ == #[trigger] after_claim(
                    old(self)@,
                    now,
                    claim_limit_spec(number_of_jobs) as nat,
                ),
    {
        let now = now_micros();
        let r = self.pull_at(number_of_jobs, now);
        assert(final(self)@ == after_claim(old(self)@, now, claim_limit_spec(number_of_jobs) as nat));
        r
    }
    /// Removes job `id`. Unknown identifiers are no error: the call is then a
    /// no-op, so deleting twice is harmless.
    pub fn delete_job(&mut self, id: u128) -> (r: Result<(), Error>)
        requires
            old(self).wf(),
        ensures
            r is Ok,
            final(self).wf(),
            !has_id(old(self)@, id) ==> final(self)@ == old(self)@,
            forall|i: int|
                0 <= i < old(self)@.len() && (#[trigger] old(self)@[i]).id == id
                    ==> final(self)@ == old(self)@.remove(i),
            !has_id(final(self)@, id),
    {
        let mut i: usize = 0;
        while i < self.rows.len()
            invariant
                self@ == old(self)@,
                self.wf(),
                0 <= i <= self@.len(),
                forall|j: int| 0 <= j < i ==> (#[trigger] self@[j]).id != id,
            decreases self@.len() - i,
        {
            if self.rows[i].id == id {
                let ghost before = self@;
                let _removed = self.rows.remove(i);
                assert forall|a: int, b: int|
                    0 <= a < self@.len() && 0 <= b < self@.len() && a != b implies (
                    #[trigger] self@[a]).id != (#[trigger] self@[b]).id by {
                    let a0 = if a < i { a } else { a + 1 };
                    let b0 = if b < i { b } else { b + 1 };
                    assert(self@[a] == before[a0]);
                    assert(self@[b] == before[b0]);
                }
                assert forall|k: int|
                    0 <= k < before.len() && (#[trigger] before[k]).id == id implies self@
                    == before.remove(k) by {
                    assert(k == i);
                }
                assert(!has_id(self@, id)) by {
                    assert forall|a: int| 0 <= a < self@.len() implies (#[trigger] self@[a]).id
                        != id by {
                        let a0 = if a < i { a } else { a + 1 };
                        assert(self@[a] == before[a0]);
                    }
                }
                return Ok(());
            }
            i += 1;
        }
        Ok(())
    }

    /// Records at `now` a failed run of job `id`: its counter goes up by one,
    /// it is queued again and may be claimed again at once while under
    /// `MAX_FAILED_ATTEMPTS`. Unknown identifiers are a no-op. A counter
    /// already at `i32::MAX` is refused with `Internal`, as the store refuses
    /// an integer out of range, and nothing changes.
    pub fn fail_job_at(&mut self, id: u128, now: i64) -> (r: Result<(), Error>)
        requires
            old(self).wf(),
        ensures
            final(self).wf(),
            r is Err <==> fail_overflows(old(self)@, id),
            r is Err ==> (r matches Err(e) && e is Internal) && final(self)@ == old(self)@,
            r is Ok ==> final(self)@ == after_fail(old(self)@, id, now),
    {
        let ghost rows = self@;
        let n = self.rows.len();
        let mut i: usize = 0;
        while i < n
            invariant
                rows == old(self)@,
                n == rows.len(),
                self@.len() == n,
                unique_ids(rows),
                i <= n,
                forall|j: int| 0 <= j < i ==> rows[j].id != id || rows[j].failed_attempts < i32::MAX,
                forall|j: int| 0 <= j < i ==> #[trigger] self@[j] == after_fail(rows, id, now)[j],
                forall|j: int| i <= j < n ==> #[trigger] self@[j] == rows[j],
            decreases n - i,
        {
            if self.rows[i].id == id {
                if self.rows[i].failed_attempts == i32::MAX {
                    assert(self@ =~= rows) by {
                        assert forall|j: int| 0 <= j < i implies #[trigger] self@[j] == rows[j] by {
                            assert(rows[j].id != rows[i as int].id);
                        }
                    }
                    assert(rows[i as int].id == id);
                    return Err(Error::Internal(String::from_str("failed attempt count out of range")));
                }
                let rec = self.rows[i].to_requeued(now);
                self.rows.set(i, rec);
            }
            assert(self@[i as int] == after_fail(rows, id, now)[i as int]);
            i += 1;
        }
        assert(self@ =~= after_fail(rows, id, now));
        assert forall|a: int, b: int|
            0 <= a < self@.len() && 0 <= b < self@.len() && a != b implies (
            #[trigger] self@[a]).id != (#[trigger] self@[b]).id by {
            assert(self@[a].id == rows[a].id);
            assert(self@[b].id == rows[b].id);
        }
        assert(!fail_overflows(rows, id));
        Ok(())
    }

    /// Records, at the current time, a failed run of job `id`.
    pub fn fail_job(&mut self, id: u128) -> (r: Result<(), Error>)
        requires
            old(self).wf(),
        ensures
            final(self).wf(),
            r is Err <==> fail_overflows(old(self)@, id),
            r is Err ==> (r matches Err(e) && e is Internal) && final(self)@ == old(self)@,
            r is Ok ==> exists|now: i64| final(self)@ == #[trigger] after_fail(old(self)@, id, now),
    {
        let now = now_micros();
        let r = self.fail_job_at(id, now);
        assert(r is Ok ==> final(self)@ == after_fail(old(self)@, id, now));
        r
    }

    /// Removes every job.
    pub fn clear(&mut self) -> (r: Result<(), Error>)
        ensures
            r is Ok,
            final(self).wf(),
            final(self)@ == Seq::<JobRecord>::empty(),
    {
        self.rows.clear();
        Ok(())
    }
}

} // verus!
