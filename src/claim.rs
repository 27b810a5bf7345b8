use vstd::prelude::*;
use crate::queue::{eligible, job_of, running, Job, JobRecord};

verus! {

/// Row `i` goes before row `j` in claim order: earlier `scheduled_for`
/// first, and among equal ones the row stored first.
pub open spec fn precedes(rows: Seq<JobRecord>, i: int, j: int) -> bool {
    rows[i].scheduled_for < rows[j].scheduled_for || (rows[i].scheduled_for
        == rows[j].scheduled_for && i < j)
}

/// Row `i` is eligible at `now` and not among the rows `taken`.
pub open spec fn open_at(rows: Seq<JobRecord>, now: i64, taken: Seq<int>, i: int) -> bool {
    eligible(rows[i], now) && !taken.contains(i)
}

/// The first row in claim order among rows `0..end` that is open, or -1.
pub open spec fn best_below(rows: Seq<JobRecord>, now: i64, taken: Seq<int>, end: int) -> int
    decreases end,
{
    if end <= 0 {
        -1
    } else {
        let b = best_below(rows, now, taken, end - 1);
        if open_at(rows, now, taken, end - 1) && (b < 0 || rows[end - 1].scheduled_for
            < rows[b].scheduled_for) {
            end - 1
        } else {
            b
        }
    }
}

/// The rows, by position, that a claim of at most `limit` jobs at `now`
/// takes, in the order it hands them out.
pub open spec fn claim_order(rows: Seq<JobRecord>, now: i64, limit: nat) -> Seq<int>
    decreases limit,
{
    if limit == 0 {
        Seq::empty()
    } else {
        let prev = claim_order(rows, now, (limit - 1) as nat);
        let b = best_below(rows, now, prev, rows.len() as int);
        if b < 0 {
            prev
        } else {
            prev.push(b)
        }
    }
}

/// The jobs a claim of at most `limit` jobs at `now` returns.
pub open spec fn claimed_jobs(rows: Seq<JobRecord>, now: i64, limit: nat) -> Seq<Job> {
    claim_order(rows, now, limit).map_values(|i: int| job_of(rows[i]))
}

/// The rows after the rows at positions `order` are claimed at `now`.
pub open spec fn mark_running(rows: Seq<JobRecord>, order: Seq<int>, now: i64) -> Seq<JobRecord> {
    Seq::new(
        rows.len(),
        |i: int|
            if order.contains(i) {
                running(rows[i], now)
            } else {
                rows[i]
            },
    )
}

/// The table after a claim of at most `limit` jobs at `now`.
pub open spec fn after_claim(rows: Seq<JobRecord>, now: i64, limit: nat) -> Seq<JobRecord> {
    mark_running(rows, claim_order(rows, now, limit), now)
}

/// What `best_below` finds: an open row that goes before every other open
/// row below `end`, or -1 when there is none.
pub proof fn lemma_best_below(rows: Seq<JobRecord>, now: i64, taken: Seq<int>, end: int)
    requires
        0 <= end <= rows.len(),
    ensures
        ({
            let b = best_below(rows, now, taken, end);
            &&& -1 <= b < end
            &&& b >= 0 ==> open_at(rows, now, taken, b)
            &&& b < 0 ==> forall|j: int| 0 <= j < end ==> !open_at(rows, now, taken, j)
            &&& b >= 0 ==> forall|j: int|
                0 <= j < end && j != b && open_at(rows, now, taken, j) ==> precedes(rows, b, j)
        }),
    decreases end,
{
    if end > 0 {
        lemma_best_below(rows, now, taken, end - 1);
        let b0 = best_below(rows, now, taken, end - 1);
        let b = best_below(rows, now, taken, end);
        let i = end - 1;
        if b == i {
            assert forall|j: int|
                0 <= j < end && j != b && open_at(rows, now, taken, j) implies precedes(
                rows,
                b,
                j,
            ) by {
                assert(b0 >= 0);
                if j != b0 {
                    assert(precedes(rows, b0, j));
                }
            }
        } else {
            assert(b == b0);
            if open_at(rows, now, taken, i) {
                assert(b0 >= 0);
                assert(precedes(rows, b0, i));
            }
        }
    }
}

/// What a claim takes: distinct eligible rows, in claim order, no more than
/// `limit`, all eligible rows when fewer than `limit`, and every eligible
/// row left behind goes after every row taken.
pub proof fn lemma_claim_order(rows: Seq<JobRecord>, now: i64, limit: nat)
    ensures
        ({
            let o = claim_order(rows, now, limit);
            &&& o.len() <= limit
            &&& o.no_duplicates()
            &&& forall|k: int| 0 <= k < o.len() ==> 0 <= #[trigger] o[k] < rows.len()
            &&& forall|k: int| 0 <= k < o.len() ==> eligible(rows[#[trigger] o[k]], now)
            &&& forall|k1: int, k2: int|
                0 <= k1 < k2 < o.len() ==> precedes(rows, #[trigger] o[k1], #[trigger] o[k2])
            &&& forall|k: int, j: int|
                0 <= k < o.len() && 0 <= j < rows.len() && eligible(rows[j], now)
                    && !o.contains(j) ==> #[trigger] precedes(rows, o[k], j)
            &&& o.len() < limit ==> forall|j: int|
                0 <= j < rows.len() && eligible(rows[j], now) ==> o.contains(j)
        }),
    decreases limit,
{
    if limit > 0 {
        let prev = claim_order(rows, now, (limit - 1) as nat);
        lemma_claim_order(rows, now, (limit - 1) as nat);
        lemma_best_below(rows, now, prev, rows.len() as int);
        let b = best_below(rows, now, prev, rows.len() as int);
        if b >= 0 {
            let o = prev.push(b);
            assert(o[o.len() - 1] == b);
            assert forall|k: int| 0 <= k < o.len() implies 0 <= #[trigger] o[k] < rows.len()
                && eligible(rows[o[k]], now) by {
                if k < prev.len() {
                    assert(o[k] == prev[k]);
                }
            }
            assert forall|k1: int, k2: int| 0 <= k1 < k2 < o.len() implies precedes(
                rows,
                #[trigger] o[k1],
                #[trigger] o[k2],
            ) by {
                assert(o[k1] == prev[k1]);
                if k2 < prev.len() {
                    assert(o[k2] == prev[k2]);
                } else {
                    assert(!prev.contains(b));
                }
            }
            assert forall|k: int, j: int|
                0 <= k < o.len() && 0 <= j < rows.len() && eligible(rows[j], now) && !o.contains(
                    j,
                ) implies #[trigger] precedes(rows, o[k], j) by {
                if k < prev.len() {
                    assert(o[k] == prev[k]);
                    assert(!prev.contains(j)) by {
                        if prev.contains(j) {
                            let m = choose|m: int| 0 <= m < prev.len() && prev[m] == j;
                            assert(o[m] == j);
                        }
                    }
                } else {
                    assert(j != b);
                    assert(!prev.contains(j)) by {
                        if prev.contains(j) {
                            let m = choose|m: int| 0 <= m < prev.len() && prev[m] == j;
                            assert(o[m] == j);
                        }
                    }
                }
            }
            assert(o.no_duplicates()) by {
                assert forall|i: int, j: int| 0 <= i < o.len() && 0 <= j < o.len() && i != j implies o[i]
                    != o[j] by {
                    if i < prev.len() && j < prev.len() {
                        assert(o[i] == prev[i] && o[j] == prev[j]);
                    } else if i < prev.len() {
                        assert(o[i] == prev[i]);
                        assert(prev.contains(prev[i]));
                    } else {
                        assert(o[j] == prev[j]);
                        assert(prev.contains(prev[j]));
                    }
                }
            }
            assert(o.len() <= limit);
            if o.len() < limit {
                assert forall|j: int| 0 <= j < rows.len() && eligible(rows[j], now) implies o.contains(
                    j,
                ) by {
                    assert(prev.contains(j));
                    let m = choose|m: int| 0 <= m < prev.len() && prev[m] == j;
                    assert(o[m] == j);
                }
            }
        } else {
            assert(claim_order(rows, now, limit) == prev);
            assert forall|j: int| 0 <= j < rows.len() && eligible(rows[j], now) implies prev.contains(
                j,
            ) by {
                assert(!open_at(rows, now, prev, j));
            }
        }
    }
}

/// The records are in claim order: `scheduled_for` never decreases.
pub open spec fn due_ordered(rows: Seq<JobRecord>) -> bool {
    forall|i: int, j: int|
        0 <= i < j < rows.len() ==> (#[trigger] rows[i]).scheduled_for <= (
        #[trigger] rows[j]).scheduled_for
}

/// The records claimed by one statement, put in the order a claim hands
/// them out: oldest `scheduled_for` first, equal ones in the order given.
pub fn order_by_schedule(records: &Vec<JobRecord>) -> (r: Vec<JobRecord>)
    ensures
        r@.to_multiset() == records@.to_multiset(),
        r@.len() == records@.len(),
        due_ordered(r@),
{
    let mut out: Vec<JobRecord> = Vec::new();
    let mut k: usize = 0;
    assert(out@ =~= records@.take(0));
    while k < records.len()
        invariant
            k <= records@.len(),
            out@.to_multiset() == records@.take(k as int).to_multiset(),
            out@.len() == k,
            due_ordered(out@),
        decreases records@.len() - k,
    {
        let x = records[k].duplicate();
        let mut p: usize = 0;
        while p < out.len() && out[p].scheduled_for <= x.scheduled_for
            invariant
                p <= out@.len(),
                due_ordered(out@),
                forall|i: int| 0 <= i < p ==> (#[trigger] out@[i]).scheduled_for <= x.scheduled_for,
            decreases out@.len() - p,
        {
            p += 1;
        }
        let ghost before = out@;
        proof {
            if p < before.len() {
                assert forall|i: int| p <= i < before.len() implies x.scheduled_for < (
                #[trigger] before[i]).scheduled_for by {
                    if i > p {
                        assert(before[p as int].scheduled_for <= before[i].scheduled_for);
                    }
                }
            }
        }
        out.insert(p, x);
        assert(out@ == before.insert(p as int, x));
        assert(records@.take(k + 1) =~= records@.take(k as int).push(records@[k as int]));
        proof {
            vstd::seq_lib::to_multiset_insert(before, p as int, x);
            vstd::seq_lib::to_multiset_build(records@.take(k as int), records@[k as int]);
        }
        assert(out@.to_multiset() == before.to_multiset().insert(x));
        assert(records@.take(k + 1).to_multiset() == records@.take(k as int).to_multiset().insert(
            x,
        ));
        assert forall|i: int, j: int| 0 <= i < j < out@.len() implies (
        #[trigger] out@[i]).scheduled_for <= (#[trigger] out@[j]).scheduled_for by {
            if j < p {
                assert(out@[i] == before[i] && out@[j] == before[j]);
            } else if j == p {
                assert(out@[i] == before[i]);
            } else if i < p {
                assert(out@[i] == before[i] && out@[j] == before[j - 1]);
            } else if i == p {
                assert(out@[j] == before[j - 1]);
            } else {
                assert(out@[i] == before[i - 1] && out@[j] == before[j - 1]);
            }
        }
        k += 1;
    }
    assert(records@.take(records@.len() as int) =~= records@);
    out
}

} // verus!
