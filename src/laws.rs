use vstd::prelude::*;
use vstd::set_lib::{lemma_int_range, lemma_len_subset, set_int_range};
use crate::claim::{
    after_claim, best_below, claim_order, claimed_jobs, lemma_best_below, lemma_claim_order,
};
use crate::queue::{
    eligible, job_of, new_record, running, Job, JobRecord, JobStatus, Message, MAX_FAILED_ATTEMPTS,
};
use crate::table::{after_fail, has_id, unique_ids};

verus! {

/// A claim on a table where no job is eligible returns nothing.
pub proof fn lemma_nothing_eligible_nothing_claimed(rows: Seq<JobRecord>, now: i64, limit: nat)
    requires
        forall|i: int| 0 <= i < rows.len() ==> !eligible(#[trigger] rows[i], now),
    ensures
        claim_order(rows, now, limit).len() == 0,
        claimed_jobs(rows, now, limit).len() == 0,
{
    lemma_claim_order(rows, now, limit);
    let o = claim_order(rows, now, limit);
    if o.len() > 0 {
        assert(eligible(rows[o[0]], now));
    }
}

/// A claim never takes more jobs than the table holds.
pub proof fn lemma_claim_within_table(rows: Seq<JobRecord>, now: i64, limit: nat)
    ensures
        claim_order(rows, now, limit).len() <= rows.len(),
{
    let o = claim_order(rows, now, limit);
    lemma_claim_order(rows, now, limit);
    o.unique_seq_to_set();
    lemma_int_range(0, rows.len() as int);
    assert(o.to_set().subset_of(set_int_range(0, rows.len() as int))) by {
        assert forall|x: int| o.to_set().contains(x) implies set_int_range(
            0,
            rows.len() as int,
        ).contains(x) by {
            let m = choose|m: int| 0 <= m < o.len() && o[m] == x;
        }
    }
    lemma_len_subset(o.to_set(), set_int_range(0, rows.len() as int));
}

/// A job pushed at `now` onto a table with nothing eligible is exactly what
/// a claim of one job at `now` returns; a second claim of one job at `now`
/// then returns nothing, the job being running.
pub proof fn lemma_claim_then_hidden(rows: Seq<JobRecord>, id: u128, message: Message, now: i64)
    requires
        forall|i: int| 0 <= i < rows.len() ==> !eligible(#[trigger] rows[i], now),
    ensures
        ({
            let t = rows.push(new_record(id, message, None, now));
            &&& claimed_jobs(t, now, 1) == seq![Job { id, message }]
            &&& claimed_jobs(after_claim(t, now, 1), now, 1).len() == 0
        }),
{
    let t = rows.push(new_record(id, message, None, now));
    let n = rows.len() as int;
    let e = Seq::<int>::empty();
    lemma_best_below(t, now, e, t.len() as int);
    assert(claim_order(t, now, 0) == e);
    assert(t[n] == new_record(id, message, None, now));
    assert(eligible(t[n], now));
    let b = best_below(t, now, e, t.len() as int);
    assert(b == n) by {
        if b != n {
            assert(0 <= b < n);
            assert(t[b] == rows[b]);
        }
    }
    assert(claim_order(t, now, 1) =~= seq![n]);
    assert(claimed_jobs(t, now, 1) =~= seq![Job { id, message }]);
    let after = after_claim(t, now, 1);
    assert forall|i: int| 0 <= i < after.len() implies !eligible(#[trigger] after[i], now) by {
        if i == n {
            assert(seq![n][0] == n);
            assert(after[i] == running(t[n], now));
        } else {
            assert(!seq![n].contains(i));
            assert(after[i] == rows[i]);
        }
    }
    lemma_nothing_eligible_nothing_claimed(after, now, 1);
}

/// Two claims, one after the other, on a table with distinct identifiers
/// never hand out the same job: within each result and across the two the
/// identifiers are distinct, and together they hold at most as many jobs as
/// the table.
pub proof fn lemma_claims_disjoint(rows: Seq<JobRecord>, now1: i64, limit1: nat, now2: i64, limit2: nat)
    requires
        unique_ids(rows),
    ensures
        ({
            let j1 = claimed_jobs(rows, now1, limit1);
            let t1 = after_claim(rows, now1, limit1);
            let j2 = claimed_jobs(t1, now2, limit2);
            &&& forall|a: int, b: int|
                0 <= a < j1.len() && 0 <= b < j2.len() ==> (#[trigger] j1[a]).id != (
                #[trigger] j2[b]).id
            &&& forall|a: int, b: int|
                0 <= a < j1.len() && 0 <= b < j1.len() && a != b ==> (#[trigger] j1[a]).id != (
                #[trigger] j1[b]).id
            &&& forall|a: int, b: int|
                0 <= a < j2.len() && 0 <= b < j2.len() && a != b ==> (#[trigger] j2[a]).id != (
                #[trigger] j2[b]).id
            &&& j1.len() + j2.len() <= rows.len()
        }),
{
    let o1 = claim_order(rows, now1, limit1);
    let t1 = after_claim(rows, now1, limit1);
    let o2 = claim_order(t1, now2, limit2);
    let j1 = claimed_jobs(rows, now1, limit1);
    let j2 = claimed_jobs(t1, now2, limit2);
    lemma_claim_order(rows, now1, limit1);
    lemma_claim_order(t1, now2, limit2);
    assert(t1.len() == rows.len());
    assert forall|i: int| 0 <= i < t1.len() implies (#[trigger] t1[i]).id == rows[i].id by {}
    assert forall|a: int, b: int| 0 <= a < o1.len() && 0 <= b < o2.len() implies #[trigger] o1[a]
        != #[trigger] o2[b] by {
        assert(o1.contains(o1[a]));
        assert(eligible(t1[o2[b]], now2));
        if o1[a] == o2[b] {
            assert(t1[o1[a]] == running(rows[o1[a]], now1));
        }
    }
    assert forall|a: int, b: int|
        0 <= a < j1.len() && 0 <= b < j2.len() implies (#[trigger] j1[a]).id != (
        #[trigger] j2[b]).id by {
        assert(j1[a] == job_of(rows[o1[a]]));
        assert(j2[b] == job_of(t1[o2[b]]));
    }
    assert forall|a: int, b: int|
        0 <= a < j1.len() && 0 <= b < j1.len() && a != b implies (#[trigger] j1[a]).id != (
        #[trigger] j1[b]).id by {
        assert(j1[a] == job_of(rows[o1[a]]));
        assert(j1[b] == job_of(rows[o1[b]]));
    }
    assert forall|a: int, b: int|
        0 <= a < j2.len() && 0 <= b < j2.len() && a != b implies (#[trigger] j2[a]).id != (
        #[trigger] j2[b]).id by {
        assert(j2[a] == job_of(t1[o2[a]]));
        assert(j2[b] == job_of(t1[o2[b]]));
    }
    let both = o1 + o2;
    assert(both.no_duplicates()) by {
        assert forall|a: int, b: int| 0 <= a < both.len() && 0 <= b < both.len() && a != b implies both[a]
            != both[b] by {
            if a < o1.len() && b >= o1.len() {
                assert(o1[a] != o2[b - o1.len()]);
            } else if a >= o1.len() && b < o1.len() {
                assert(o1[b] != o2[a - o1.len()]);
            }
        }
    }
    both.unique_seq_to_set();
    lemma_int_range(0, rows.len() as int);
    assert(both.to_set().subset_of(set_int_range(0, rows.len() as int))) by {
        assert forall|x: int| both.to_set().contains(x) implies set_int_range(
            0,
            rows.len() as int,
        ).contains(x) by {
            let m = choose|m: int| 0 <= m < both.len() && both[m] == x;
            if m < o1.len() {
                assert(o1[m] == x);
            } else {
                assert(o2[m - o1.len()] == x);
            }
        }
    }
    lemma_len_subset(both.to_set(), set_int_range(0, rows.len() as int));
}

/// A job not yet due is not claimed; once its time has come, a claim large
/// enough to take every eligible job takes it, even after the earlier claim.
pub proof fn lemma_scheduled_job_waits(
    rows: Seq<JobRecord>,
    k: int,
    now: i64,
    later: i64,
    limit: nat,
)
    requires
        0 <= k < rows.len(),
        rows[k].status == JobStatus::Queued,
        rows[k].failed_attempts < MAX_FAILED_ATTEMPTS,
        now < rows[k].scheduled_for <= later,
        limit > rows.len(),
    ensures
        !claim_order(rows, now, limit).contains(k),
        claim_order(after_claim(rows, now, limit), later, limit).contains(k),
        claimed_jobs(after_claim(rows, now, limit), later, limit).contains(job_of(rows[k])),
{
    let o = claim_order(rows, now, limit);
    lemma_claim_order(rows, now, limit);
    if o.contains(k) {
        let m = choose|m: int| 0 <= m < o.len() && o[m] == k;
        assert(eligible(rows[o[m]], now));
    }
    let t1 = after_claim(rows, now, limit);
    assert(t1[k] == rows[k]);
    let o2 = claim_order(t1, later, limit);
    lemma_claim_order(t1, later, limit);
    lemma_claim_within_table(t1, later, limit);
    assert(eligible(t1[k], later));
    assert(o2.contains(k));
    let m = choose|m: int| 0 <= m < o2.len() && o2[m] == k;
    let j2 = claimed_jobs(t1, later, limit);
    assert(j2[m] == job_of(t1[k]));
}

/// A job whose failure count has reached `MAX_FAILED_ATTEMPTS` is never
/// claimed, and a claim leaves it as it is.
pub proof fn lemma_exhausted_never_claimed(rows: Seq<JobRecord>, k: int, now: i64, limit: nat)
    requires
        0 <= k < rows.len(),
        rows[k].failed_attempts >= MAX_FAILED_ATTEMPTS,
    ensures
        !claim_order(rows, now, limit).contains(k),
        after_claim(rows, now, limit)[k] == rows[k],
{
    let o = claim_order(rows, now, limit);
    lemma_claim_order(rows, now, limit);
    if o.contains(k) {
        let m = choose|m: int| 0 <= m < o.len() && o[m] == k;
        assert(eligible(rows[o[m]], now));
    }
}

/// Three failures reported for a job that had none leave it stored, queued,
/// with a failure count of three, and no claim returns it afterwards.
pub proof fn lemma_three_failures_exhaust(
    rows: Seq<JobRecord>,
    k: int,
    t1: i64,
    t2: i64,
    t3: i64,
    now: i64,
    limit: nat,
)
    requires
        unique_ids(rows),
        0 <= k < rows.len(),
        rows[k].failed_attempts == 0,
    ensures
        ({
            let id = rows[k].id;
            let t = after_fail(after_fail(after_fail(rows, id, t1), id, t2), id, t3);
            &&& t.len() == rows.len()
            &&& t[k].id == id
            &&& t[k].failed_attempts == 3
            &&& t[k].status == JobStatus::Queued
            &&& has_id(t, id)
            &&& forall|a: int|
                0 <= a < claimed_jobs(t, now, limit).len() ==> (#[trigger] claimed_jobs(
                    t,
                    now,
                    limit,
                )[a]).id != id
        }),
{
    let id = rows[k].id;
    let f1 = after_fail(rows, id, t1);
    let f2 = after_fail(f1, id, t2);
    let t = after_fail(f2, id, t3);
    assert(f1[k].failed_attempts == 1);
    assert(f2[k].failed_attempts == 2);
    assert(t[k].failed_attempts == 3);
    assert forall|i: int| 0 <= i < t.len() implies (#[trigger] t[i]).id == rows[i].id by {
        assert(f1[i].id == rows[i].id);
        assert(f2[i].id == f1[i].id);
    }
    assert(t[k].id == id);
    let o = claim_order(t, now, limit);
    lemma_claim_order(t, now, limit);
    lemma_exhausted_never_claimed(t, k, now, limit);
    let j = claimed_jobs(t, now, limit);
    assert forall|a: int| 0 <= a < j.len() implies (#[trigger] j[a]).id != id by {
        assert(j[a] == job_of(t[o[a]]));
        assert(o[a] != k);
    }
}

/// Once job `rows[k]` is deleted no row holds its identifier and no claim
/// returns it; on a table that held only that job, a claim returns nothing.
pub proof fn lemma_completed_job_gone(rows: Seq<JobRecord>, k: int, now: i64, limit: nat)
    requires
        unique_ids(rows),
        0 <= k < rows.len(),
    ensures
        ({
            let t = rows.remove(k);
            &&& !has_id(t, rows[k].id)
            &&& forall|a: int|
                0 <= a < claimed_jobs(t, now, limit).len() ==> (#[trigger] claimed_jobs(
                    t,
                    now,
                    limit,
                )[a]).id != rows[k].id
            &&& rows.len() == 1 ==> claimed_jobs(t, now, limit).len() == 0
        }),
{
    let t = rows.remove(k);
    assert forall|a: int| 0 <= a < t.len() implies (#[trigger] t[a]).id != rows[k].id by {
        let a0 = if a < k { a } else { a + 1 };
        assert(t[a] == rows[a0]);
    }
    let o = claim_order(t, now, limit);
    lemma_claim_order(t, now, limit);
    let j = claimed_jobs(t, now, limit);
    assert forall|a: int| 0 <= a < j.len() implies (#[trigger] j[a]).id != rows[k].id by {
        assert(j[a] == job_of(t[o[a]]));
    }
    if rows.len() == 1 {
        lemma_nothing_eligible_nothing_claimed(t, now, limit);
    }
}

/// After the table is cleared, a claim returns nothing.
pub proof fn lemma_clear_resets(now: i64, limit: nat)
    ensures
        claimed_jobs(Seq::<JobRecord>::empty(), now, limit).len() == 0,
{
    lemma_nothing_eligible_nothing_claimed(Seq::<JobRecord>::empty(), now, limit);
}

} // verus!
