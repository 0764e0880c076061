use micro_agent::job::{JobRole, JobStatus};
use micro_agent::scheduler::JobScheduler;
use micro_agent::store::RedbJobStore;

fn scheduler() -> JobScheduler {
    JobScheduler::new(RedbJobStore::new())
}

#[test]
fn enqueue_creates_pending_jobs_with_increasing_sequences() {
    let mut s = scheduler();
    let a = s.enqueue(5, Some("hi".to_string()), String::new(), JobRole::Embed);
    let b = s.enqueue(6, None, "x".to_string(), JobRole::Call);
    assert_eq!(a.sequence, 1);
    assert_eq!(b.sequence, 2);
    assert_eq!(a.status, JobStatus::Pending);
    assert_eq!(a.chat_id, 5);
    assert_eq!(a.user_message, Some("hi".to_string()));
    assert_eq!(b.role, JobRole::Call);
    assert_ne!(a.id, b.id);
}

#[test]
fn job_ids_are_version_four_uuids() {
    let mut s = scheduler();
    for _ in 0..5 {
        let j = s.enqueue(1, None, String::new(), JobRole::Embed);
        assert_eq!(j.id & 0xF000_C000_0000_0000_0000, 0x4000_8000_0000_0000_0000);
        assert_ne!(j.id, 0);
    }
}

#[test]
fn jobs_are_handed_out_one_at_a_time_in_order() {
    let mut s = scheduler();
    let a = s.enqueue(1, None, "a".to_string(), JobRole::Embed);
    let b = s.enqueue(1, None, "b".to_string(), JobRole::Embed);
    let first = s.next_job().unwrap();
    assert_eq!(first.id, a.id);
    assert_eq!(first.status, JobStatus::Processing);
    assert!(s.next_job().is_none());
    s.complete(a.id);
    let second = s.next_job().unwrap();
    assert_eq!(second.id, b.id);
    s.fail(b.id);
    assert!(s.next_job().is_none());
    assert_eq!(s.store().jobs().len(), 1);
}

#[test]
fn enqueue_job_gives_fresh_id_and_sequence() {
    let mut s = scheduler();
    let a = s.enqueue(9, Some("m".to_string()), "p".to_string(), JobRole::Embed);
    let next = a.next_role().unwrap();
    let b = s.enqueue_job(next);
    assert_ne!(b.id, a.id);
    assert_eq!(b.sequence, 2);
    assert_eq!(b.role, JobRole::Interpret);
    assert_eq!(b.chat_id, 9);
    assert_eq!(b.payload, "p");
    assert_eq!(b.status, JobStatus::Pending);
}

#[test]
fn sequences_exhausted_only_at_the_top() {
    let s = scheduler();
    assert!(!s.sequences_exhausted());
    let store = RedbJobStore::from_tables(vec![], vec![], Some(u64::MAX)).unwrap();
    assert!(JobScheduler::new(store).sequences_exhausted());
}
