use job_queue::{
    ack_for, batch_after_claim, claim_limit, index, order_by_schedule, Ack, Error, Job, JobRecord, JobStatus,
    JobTable, Message, CLAIM_ERROR_BACKOFF_MS, CONCURRENCY, MAX_BATCH, MAX_FAILED_ATTEMPTS,
};

const T: i64 = 1_700_000_000_000_000;
const SECOND: i64 = 1_000_000;
const HOUR: i64 = 3_600 * SECOND;

fn detail(s: &str) -> Message {
    Message::Detail { item: s.to_string() }
}

fn item(m: &Message) -> String {
    match m {
        Message::Detail { item } => item.clone(),
    }
}

fn ids(jobs: &[Job]) -> Vec<u128> {
    jobs.iter().map(|j| j.id).collect()
}

#[test]
fn claim_then_visibility() {
    let mut t = JobTable::new();
    let id = t.insert_job(1, detail("x"), None, T).unwrap();
    let first = t.pull_at(1, T);
    assert_eq!(ids(&first), vec![id]);
    assert_eq!(item(&first[0].message), "x");
    let second = t.pull_at(1, T);
    assert!(second.is_empty());
    assert_eq!(t.get(id).unwrap().status, JobStatus::Running);
}

#[test]
fn two_claims_of_a_hundred_are_disjoint() {
    let mut t = JobTable::new();
    for i in 0..100u128 {
        t.insert_job(i + 1, detail("j"), None, T).unwrap();
    }
    let a = t.pull_at(100, T);
    let b = t.pull_at(100, T);
    let mut all = ids(&a);
    all.extend(ids(&b));
    let n = all.len();
    all.sort();
    all.dedup();
    assert_eq!(all.len(), n);
    assert!(n <= 100);
    assert_eq!(a.len(), 100);
    assert!(b.is_empty());
}

#[test]
fn future_job_waits_until_due() {
    let mut t = JobTable::new();
    let id = t.insert_job(7, detail("later"), Some(T + HOUR), T).unwrap();
    assert!(t.pull_at(10, T).is_empty());
    assert!(t.pull_at(10, T + HOUR - 1).is_empty());
    let got = t.pull_at(10, T + HOUR + 1);
    assert_eq!(ids(&got), vec![id]);
}

#[test]
fn three_failures_exhaust_a_job() {
    let mut t = JobTable::new();
    let id = t.insert_job(9, detail("f"), None, T).unwrap();
    assert_eq!(ids(&t.pull_at(1, T)), vec![id]);
    t.fail_job_at(id, T + 1).unwrap();
    t.fail_job_at(id, T + 2).unwrap();
    t.fail_job_at(id, T + 3).unwrap();
    let rec = t.get(id).unwrap();
    assert_eq!(rec.failed_attempts, 3);
    assert_eq!(rec.status, JobStatus::Queued);
    assert_eq!(rec.updated_at, T + 3);
    assert!(t.pull_at(10, T + 10).is_empty());
    assert!(t.pull_at(100, T + HOUR).is_empty());
    assert_eq!(t.len(), 1);
}

#[test]
fn failed_job_is_claimable_again_at_once() {
    let mut t = JobTable::new();
    let id = t.insert_job(9, detail("f"), None, T).unwrap();
    t.pull_at(1, T);
    t.fail_job_at(id, T + 1).unwrap();
    assert_eq!(t.get(id).unwrap().failed_attempts, 1);
    assert_eq!(ids(&t.pull_at(1, T + 1)), vec![id]);
}

#[test]
fn completion_removes() {
    let mut t = JobTable::new();
    let id = t.insert_job(3, detail("c"), None, T).unwrap();
    assert_eq!(ids(&t.pull_at(1, T)), vec![id]);
    assert!(t.delete_job(id).is_ok());
    assert!(t.pull_at(1, T).is_empty());
    assert!(t.delete_job(id).is_ok());
    assert!(t.get(id).is_none());
    assert_eq!(t.len(), 0);
}

#[test]
fn clear_resets() {
    let mut t = JobTable::new();
    for i in 0..5u128 {
        t.insert_job(i, detail("c"), None, T).unwrap();
    }
    assert!(t.clear().is_ok());
    assert!(t.pull_at(5, T).is_empty());
    assert_eq!(t.len(), 0);
}

#[test]
fn end_to_end_scenario() {
    let mut t = JobTable::new();
    let id = t.insert_job(42, detail("A"), None, T).unwrap();
    let batch = t.pull_at(5, T + SECOND);
    assert_eq!(batch.len(), 1);
    assert_eq!(item(&batch[0].message), "A");
    assert_eq!(t.get(id).unwrap().status, JobStatus::Running);
    assert_eq!(t.get(id).unwrap().updated_at, T + SECOND);
    let outcome: Result<(), Error> = Ok(());
    assert_eq!(ack_for(batch[0].id, &outcome), Ack::Complete(id));
    t.delete_job(id).unwrap();
    assert!(t.pull_at(5, T + 2 * SECOND).is_empty());
}

#[test]
fn claims_oldest_first_with_ties_in_storage_order() {
    let mut t = JobTable::new();
    t.insert_job(1, detail("c"), Some(T - 10), T).unwrap();
    t.insert_job(2, detail("a"), Some(T - 30), T).unwrap();
    t.insert_job(3, detail("b"), Some(T - 20), T).unwrap();
    t.insert_job(4, detail("b2"), Some(T - 20), T).unwrap();
    t.insert_job(5, detail("future"), Some(T + 1), T).unwrap();
    assert_eq!(ids(&t.pull_at(3, T)), vec![2, 3, 4]);
    assert_eq!(ids(&t.pull_at(3, T)), vec![1]);
}

#[test]
fn claim_of_zero_takes_nothing() {
    let mut t = JobTable::new();
    t.insert_job(1, detail("a"), None, T).unwrap();
    assert!(t.pull_at(0, T).is_empty());
    assert_eq!(t.get(1).unwrap().status, JobStatus::Queued);
}

#[test]
fn large_requests_are_capped() {
    assert_eq!(claim_limit(0), 0);
    assert_eq!(claim_limit(100), 100);
    assert_eq!(claim_limit(101), MAX_BATCH);
    assert_eq!(claim_limit(u32::MAX), 100);
    let mut t = JobTable::new();
    for i in 0..150u128 {
        t.insert_job(i, detail("j"), None, T).unwrap();
    }
    assert_eq!(t.pull_at(1000, T).len(), 100);
    assert_eq!(t.pull_at(1000, T).len(), 50);
}

#[test]
fn new_record_defaults() {
    let mut t = JobTable::new();
    t.insert_job(11, detail("d"), None, T).unwrap();
    let rec: JobRecord = t.get(11).unwrap();
    assert_eq!(rec.created_at, T);
    assert_eq!(rec.updated_at, T);
    assert_eq!(rec.scheduled_for, T);
    assert_eq!(rec.failed_attempts, 0);
    assert_eq!(rec.status, JobStatus::Queued);
    assert!(rec.is_eligible(T));
    assert!(!rec.is_eligible(T - 1));
}

#[test]
fn duplicate_id_is_refused() {
    let mut t = JobTable::new();
    t.insert_job(5, detail("a"), None, T).unwrap();
    let r = t.insert_job(5, detail("b"), None, T);
    assert!(matches!(r, Err(Error::Internal(_))));
    assert_eq!(t.len(), 1);
    assert_eq!(item(&t.get(5).unwrap().message), "a");
}

#[test]
fn failing_an_unknown_job_is_a_no_op() {
    let mut t = JobTable::new();
    t.insert_job(5, detail("a"), None, T).unwrap();
    assert!(t.fail_job_at(6, T).is_ok());
    assert_eq!(t.get(5).unwrap().failed_attempts, 0);
}

#[test]
fn exhausted_threshold_is_three() {
    assert_eq!(MAX_FAILED_ATTEMPTS, 3);
    let rec = JobRecord::create(1, detail("a"), None, T);
    let mut r = rec;
    for k in 1..=3 {
        r = r.to_requeued(T + k);
    }
    assert_eq!(r.failed_attempts, 3);
    assert!(!r.is_eligible(T + 100));
}

#[test]
fn status_codes() {
    assert_eq!(JobStatus::Queued.code(), 0);
    assert_eq!(JobStatus::Running.code(), 1);
    assert_eq!(JobStatus::Failed.code(), 2);
    assert_eq!(JobStatus::from_code(1), Some(JobStatus::Running));
    assert_eq!(JobStatus::from_code(3), None);
    assert_eq!(JobStatus::from_code(-1), None);
}

#[test]
fn driver_errors_map_to_not_found_or_internal() {
    match Error::from_driver(true, "ignored".to_string()) {
        Error::NotFound(m) => assert_eq!(m, "row not found"),
        other => panic!("unexpected {:?}", other),
    }
    match Error::from_driver(false, "boom".to_string()) {
        Error::Internal(m) => assert_eq!(m, "boom"),
        other => panic!("unexpected {:?}", other),
    }
}

#[test]
fn worker_decisions() {
    let failed: Result<(), Error> = Err(Error::Internal("x".to_string()));
    assert_eq!(ack_for(7, &failed), Ack::Fail(7));
    assert_eq!(ack_for(7, &Ok(())), Ack::Complete(7));
    let (jobs, wait) = batch_after_claim(Err(Error::Internal("down".to_string())));
    assert!(jobs.is_empty());
    assert_eq!(wait, CLAIM_ERROR_BACKOFF_MS);
    assert_eq!(wait, 500);
    let one = vec![Job { id: 1, message: detail("a") }];
    let (jobs, wait) = batch_after_claim(Ok(one));
    assert_eq!(ids(&jobs), vec![1]);
    assert_eq!(wait, 0);
    assert_eq!(CONCURRENCY, 50);
}

#[test]
fn push_uses_fresh_ids_and_the_clock() {
    let mut t = JobTable::new();
    let past = 1_577_836_800_000_000; // 2020-01-01T00:00:00Z
    let a = t.push(detail("a"), Some(past)).unwrap();
    let b = t.push(detail("b"), Some(past)).unwrap();
    assert_ne!(a, b);
    assert_ne!(a, 0);
    let rec = t.get(a).unwrap();
    assert!(rec.created_at > past);
    assert_eq!(rec.created_at, rec.updated_at);
    let far = t.push(detail("far"), Some(i64::MAX)).unwrap();
    let got = t.pull(10);
    assert_eq!(ids(&got), vec![a, b]);
    assert!(got.iter().all(|j| j.id != far));
    t.fail_job(a).unwrap();
    let rec = t.get(a).unwrap();
    assert_eq!(rec.failed_attempts, 1);
    assert!(rec.updated_at >= rec.created_at);
}

#[test]
fn push_without_schedule_is_due_now() {
    let mut t = JobTable::new();
    let id = t.push(detail("now"), None).unwrap();
    let rec = t.get(id).unwrap();
    assert_eq!(rec.scheduled_for, rec.created_at);
    assert_eq!(ids(&t.pull(1)), vec![id]);
}

#[test]
fn index_banner() {
    assert_eq!(index(), "RUST JOB SCHEDULER");
}

#[test]
fn claimed_records_are_put_in_claim_order() {
    let recs = vec![
        JobRecord::create(1, detail("c"), Some(T + 30), T),
        JobRecord::create(2, detail("a"), Some(T + 10), T),
        JobRecord::create(3, detail("b"), Some(T + 20), T),
        JobRecord::create(4, detail("a2"), Some(T + 10), T),
    ];
    let sorted = order_by_schedule(&recs);
    let got: Vec<u128> = sorted.iter().map(|r| r.id).collect();
    assert_eq!(got, vec![2, 4, 3, 1]);
    assert!(order_by_schedule(&Vec::new()).is_empty());
}
