//! The job scheduler: creates jobs with fresh ids and increasing sequence
//! numbers, and hands them out one at a time in the order they came.

use vstd::prelude::*;
use crate::job::{Job, JobRole, JobStatus, with_status};
use crate::store::RedbJobStore;

verus! {

/// Calls `uuid::Uuid::new_v4` and gives the UUID's 128 bits
/// (`Uuid::as_u128`, big-endian). The bits are random; what is stated is
/// what `new_v4` sets in every outcome: version nibble 4 and variant bits
/// `10`.
#[verifier::external_body]
fn new_job_id() -> (id: u128)
    ensures
        id & 0xF000_C000_0000_0000_0000 == 0x4000_8000_0000_0000_0000,
{
    uuid::Uuid::new_v4().as_u128()
}

/// Creates jobs and hands them out through a job store.
pub struct JobScheduler {
    store: RedbJobStore,
}

impl JobScheduler {
    /// The store that the scheduler works on.
    pub closed spec fn store_view(self) -> RedbJobStore {
        self.store
    }

    /// A scheduler working on `store`.
    pub fn new(store: RedbJobStore) -> (s: Self)
        ensures
            s.store_view() == store,
    {
        JobScheduler { store }
    }

    /// The store that the scheduler works on.
    pub fn store(&self) -> (s: &RedbJobStore)
        ensures
            *s == self.store_view(),
    {
        &self.store
    }

    /// Whether every sequence number has been handed out, so that no job
    /// can be enqueued any more.
    pub fn sequences_exhausted(&self) -> (b: bool)
        ensures
            b == (self.store_view().last_value() == u64::MAX),
    {
        match self.store.last_sequence() {
            Some(v) => v == u64::MAX,
            None => false,
        }
    }

    /// Gives `job` a fresh id and the next sequence number, makes it
    /// pending and stores it.
    pub fn enqueue_job(&mut self, job: Job) -> (queued: Job)
        requires
            old(self).store_view().last_value() < u64::MAX,
        ensures
            queued == (Job {
                id: queued.id,
                sequence: (old(self).store_view().last_value() + 1) as u64,
                status: JobStatus::Pending,
                ..job
            }),
            queued.id & 0xF000_C000_0000_0000_0000 == 0x4000_8000_0000_0000_0000,
            final(self).store_view().last_sequence_view() == Some(queued.sequence),
            final(self).store_view().jobs_view() == old(self).store_view().jobs_view().insert(
                queued.id,
                queued,
            ),
            final(self).store_view().sequence_view() == old(self).store_view().sequence_view().insert(
                queued.sequence,
                queued.id,
            ),
            old(self).store_view().queue_wf() ==> final(self).store_view().queue_wf(),
    {
        let sequence = self.store.next_sequence();
        let id = new_job_id();
        let queued = Job { id, sequence, status: JobStatus::Pending, ..job };
        self.store.insert_job(&queued);
        proof {
            let old_s = old(self).store_view();
            let s = self.store_view();
            if old_s.queue_wf() {
                assert forall|a: u128, b: u128|
                    #![trigger s.jobs_view()[a], s.jobs_view()[b]]
                    s.jobs_view().contains_key(a) && s.jobs_view().contains_key(b)
                        && s.jobs_view()[a].status == JobStatus::Processing
                        && s.jobs_view()[b].status == JobStatus::Processing implies a == b by {
                    assert(a != queued.id && b != queued.id);
                    assert(old_s.jobs_view()[a] == s.jobs_view()[a]);
                    assert(old_s.jobs_view()[b] == s.jobs_view()[b]);
                }
            }
        }
        queued
    }

    /// Creates a pending job for `chat_id` with the next sequence number and
    /// a fresh id, stores it and returns it.
    pub fn enqueue(
        &mut self,
        chat_id: i64,
        user_message: Option<String>,
        payload: String,
        role: JobRole,
    ) -> (queued: Job)
        requires
            old(self).store_view().last_value() < u64::MAX,
        ensures
            queued.chat_id == chat_id,
            queued.user_message == user_message,
            queued.payload == payload,
            queued.role == role,
            queued.status == JobStatus::Pending,
            queued.sequence == old(self).store_view().last_value() + 1,
            queued.id & 0xF000_C000_0000_0000_0000 == 0x4000_8000_0000_0000_0000,
            final(self).store_view().last_sequence_view() == Some(queued.sequence),
            final(self).store_view().jobs_view() == old(self).store_view().jobs_view().insert(
                queued.id,
                queued,
            ),
            final(self).store_view().sequence_view() == old(self).store_view().sequence_view().insert(
                queued.sequence,
                queued.id,
            ),
            old(self).store_view().queue_wf() ==> final(self).store_view().queue_wf(),
    {
        let job = Job {
            id: 0,
            chat_id,
            sequence: 0,
            user_message,
            payload,
            status: JobStatus::Pending,
            role,
        };
        self.enqueue_job(job)
    }

    /// Hands out the next job and marks it `Processing`: nothing while a
    /// job is processing; else the pending job that came first, if any.
    pub fn next_job(&mut self) -> (next: Option<Job>)
        ensures
            next is None ==> {
                &&& old(self).store_view().fetch_spec(None)
                &&& final(self).store_view() == old(self).store_view()
            },
            next matches Some(job) ==> {
                &&& job.status == JobStatus::Processing
                &&& old(self).store_view().fetch_spec(Some(with_status(job, JobStatus::Pending)))
                &&& old(self).store_view().status_update(
                    job.id,
                    JobStatus::Processing,
                    final(self).store_view(),
                )
            },
            old(self).store_view().queue_wf() ==> final(self).store_view().queue_wf(),
            old(self).store_view().queue_wf() && next is Some ==> {
                &&& !old(self).store_view().has_processing()
                &&& final(self).store_view().jobs_view().contains_key(next->0.id)
                &&& final(self).store_view().jobs_view()[next->0.id] == next->0
            },
    {
        let fetched = self.store.fetch_next_pending();
        match fetched {
            None => None,
            Some(job) => {
                let ghost old_s = self.store_view();
                self.store.update_status(job.id, JobStatus::Processing);
                let mut job = job;
                job.status = JobStatus::Processing;
                proof {
                    let s = self.store_view();
                    if old_s.queue_wf() {
                        let k = choose|k: u64|
                            #![trigger old_s.pending_at(k)]
                            old_s.pending_at(k) && with_status(job, JobStatus::Pending)
                                == old_s.jobs_view()[old_s.sequence_view()[k]] && forall|k2: u64|
                                k2 < k ==> !#[trigger] old_s.pending_at(k2);
                        let key = old_s.sequence_view()[k];
                        assert(old_s.jobs_view()[key].id == key);
                        assert(key == job.id);
                        assert forall|a: u128, b: u128|
                            #![trigger s.jobs_view()[a], s.jobs_view()[b]]
                            s.jobs_view().contains_key(a) && s.jobs_view().contains_key(b)
                                && s.jobs_view()[a].status == JobStatus::Processing
                                && s.jobs_view()[b].status == JobStatus::Processing implies a
                            == b by {
                            if a != job.id {
                                assert(old_s.jobs_view()[a] == s.jobs_view()[a]);
                            }
                            if b != job.id {
                                assert(old_s.jobs_view()[b] == s.jobs_view()[b]);
                            }
                        }
                        assert(with_status(with_status(job, JobStatus::Pending), JobStatus::Processing)
                            == job);
                    }
                }
                Some(job)
            },
        }
    }

    /// Marks job `id` completed, which removes it from the store.
    pub fn complete(&mut self, id: u128)
        ensures
            old(self).store_view().status_update(id, JobStatus::Completed, final(self).store_view()),
            old(self).store_view().queue_wf() ==> final(self).store_view().queue_wf(),
    {
        self.store.update_status(id, JobStatus::Completed);
        proof {
            let old_s = old(self).store_view();
            let s = self.store_view();
            if old_s.queue_wf() {
                assert forall|a: u128, b: u128|
                    #![trigger s.jobs_view()[a], s.jobs_view()[b]]
                    s.jobs_view().contains_key(a) && s.jobs_view().contains_key(b)
                        && s.jobs_view()[a].status == JobStatus::Processing
                        && s.jobs_view()[b].status == JobStatus::Processing implies a == b by {
                    assert(old_s.jobs_view()[a] == s.jobs_view()[a]);
                    assert(old_s.jobs_view()[b] == s.jobs_view()[b]);
                }
            }
        }
    }

    /// Marks job `id` failed; it stays stored but is not handed out again.
    pub fn fail(&mut self, id: u128)
        ensures
            old(self).store_view().status_update(id, JobStatus::Failed, final(self).store_view()),
            old(self).store_view().queue_wf() ==> final(self).store_view().queue_wf(),
    {
        self.store.update_status(id, JobStatus::Failed);
        proof {
            let old_s = old(self).store_view();
            let s = self.store_view();
            if old_s.queue_wf() {
                assert forall|a: u128, b: u128|
                    #![trigger s.jobs_view()[a], s.jobs_view()[b]]
                    s.jobs_view().contains_key(a) && s.jobs_view().contains_key(b)
                        && s.jobs_view()[a].status == JobStatus::Processing
                        && s.jobs_view()[b].status == JobStatus::Processing implies a == b by {
                    if a != id {
                        assert(old_s.jobs_view()[a] == s.jobs_view()[a]);
                    }
                    if b != id {
                        assert(old_s.jobs_view()[b] == s.jobs_view()[b]);
                    }
                }
            }
        }
    }
}

} // verus!
