use micro_agent::job::{Job, JobRole, JobStatus};
use micro_agent::store::RedbJobStore;

fn job(id: u128, sequence: u64, status: JobStatus) -> Job {
    Job {
        id,
        chat_id: 1,
        sequence,
        user_message: None,
        payload: format!("job {}", id),
        status,
        role: JobRole::Embed,
    }
}

#[test]
fn sequence_numbers_start_at_one_and_increase() {
    let mut s = RedbJobStore::new();
    assert_eq!(s.last_sequence(), None);
    assert_eq!(s.next_sequence(), 1);
    assert_eq!(s.next_sequence(), 2);
    assert_eq!(s.last_sequence(), Some(2));
}

#[test]
fn empty_store_hands_out_nothing() {
    assert!(RedbJobStore::new().fetch_next_pending().is_none());
}

#[test]
fn pending_jobs_come_out_by_sequence_not_insertion() {
    let mut s = RedbJobStore::new();
    s.insert_job(&job(30, 5, JobStatus::Pending));
    s.insert_job(&job(10, 2, JobStatus::Pending));
    s.insert_job(&job(20, 9, JobStatus::Pending));
    assert_eq!(s.fetch_next_pending().unwrap().id, 10);
    assert_eq!(s.sequence_index(), &vec![(2, 10), (5, 30), (9, 20)]);
}

#[test]
fn a_processing_job_blocks_the_queue() {
    let mut s = RedbJobStore::new();
    s.insert_job(&job(1, 1, JobStatus::Pending));
    s.insert_job(&job(2, 2, JobStatus::Pending));
    s.update_status(2, JobStatus::Processing);
    assert!(s.fetch_next_pending().is_none());
}

#[test]
fn completing_removes_job_and_sequence_entry() {
    let mut s = RedbJobStore::new();
    s.insert_job(&job(1, 1, JobStatus::Pending));
    s.insert_job(&job(2, 2, JobStatus::Pending));
    s.update_status(1, JobStatus::Completed);
    assert_eq!(s.jobs().len(), 1);
    assert_eq!(s.sequence_index(), &vec![(2, 2)]);
    assert_eq!(s.fetch_next_pending().unwrap().id, 2);
}

#[test]
fn failed_jobs_stay_but_are_skipped() {
    let mut s = RedbJobStore::new();
    s.insert_job(&job(1, 1, JobStatus::Pending));
    s.insert_job(&job(2, 2, JobStatus::Pending));
    s.update_status(1, JobStatus::Failed);
    assert_eq!(s.jobs().len(), 2);
    assert_eq!(s.jobs()[0].1.status, JobStatus::Failed);
    assert_eq!(s.fetch_next_pending().unwrap().id, 2);
}

#[test]
fn updating_a_missing_job_changes_nothing() {
    let mut s = RedbJobStore::new();
    s.insert_job(&job(1, 1, JobStatus::Pending));
    s.update_status(99, JobStatus::Completed);
    assert_eq!(s.jobs().len(), 1);
    assert_eq!(s.sequence_index().len(), 1);
}

#[test]
fn inserting_under_an_existing_id_replaces_the_job() {
    let mut s = RedbJobStore::new();
    s.insert_job(&job(1, 1, JobStatus::Pending));
    let mut again = job(1, 4, JobStatus::Pending);
    again.payload = "new".to_string();
    s.insert_job(&again);
    assert_eq!(s.jobs().len(), 1);
    assert_eq!(s.jobs()[0].1.payload, "new");
    // the old sequence entry still points at the id
    assert_eq!(s.sequence_index(), &vec![(1, 1), (4, 1)]);
}

#[test]
fn from_tables_checks_the_tables() {
    assert!(RedbJobStore::from_tables(vec![(1, job(1, 1, JobStatus::Pending))], vec![(1, 1)], Some(1)).is_some());
    assert!(RedbJobStore::from_tables(
        vec![(1, job(1, 1, JobStatus::Pending)), (1, job(1, 2, JobStatus::Pending))],
        vec![],
        None
    )
    .is_none());
    assert!(RedbJobStore::from_tables(vec![], vec![(2, 1), (1, 1)], None).is_none());
    assert!(RedbJobStore::from_tables(vec![], vec![(2, 1), (2, 1)], None).is_none());
}

#[test]
fn dangling_sequence_entries_are_skipped() {
    let s = RedbJobStore::from_tables(
        vec![(5, job(5, 3, JobStatus::Pending))],
        vec![(1, 77), (3, 5)],
        Some(3),
    )
    .unwrap();
    assert_eq!(s.fetch_next_pending().unwrap().id, 5);
}

#[test]
fn a_new_job_queues_behind_the_pending_ones() {
    let mut s = RedbJobStore::new();
    s.insert_job(&job(1, 1, JobStatus::Pending));
    s.insert_job(&job(2, 2, JobStatus::Pending));
    let before = s.fetch_next_pending().unwrap().id;
    s.insert_job(&job(3, 3, JobStatus::Pending));
    assert_eq!(s.fetch_next_pending().unwrap().id, before);
}

#[test]
fn a_new_job_is_next_when_the_queue_is_idle() {
    let mut s = RedbJobStore::new();
    s.insert_job(&job(1, 1, JobStatus::Failed));
    assert!(s.fetch_next_pending().is_none());
    s.insert_job(&job(2, 2, JobStatus::Pending));
    assert_eq!(s.fetch_next_pending().unwrap().id, 2);
}
