//! The job store: jobs by id, job ids by sequence number (walked in
//! sequence order, which makes the queue first-in first-out), and the last
//! sequence number handed out.

use vstd::prelude::*;
use crate::job::{Job, JobStatus, with_status};
use crate::table::{
    keys_distinct, keys_increasing, lemma_pairs_map, pairs_map, put_by_id, put_by_key, remove_at,
    remove_by_key,
};

verus! {

/// The contents of the job store's three tables. `jobs` maps a job's id to
/// the job, `sequence_index` maps a sequence number to a job id and is kept
/// in ascending key order, and `last_sequence` is the last sequence number
/// handed out, if any.
pub struct RedbJobStore {
    jobs: Vec<(u128, Job)>,
    sequence_index: Vec<(u64, u128)>,
    last_sequence: Option<u64>,
}

impl RedbJobStore {
    #[verifier::type_invariant]
    spec fn tables_wf(self) -> bool {
        &&& keys_distinct(self.jobs@)
        &&& keys_increasing(self.sequence_index@)
    }

    /// The jobs table: job id to job.
    pub closed spec fn jobs_view(self) -> Map<u128, Job> {
        pairs_map(self.jobs@)
    }

    /// The sequence table: sequence number to job id.
    pub closed spec fn sequence_view(self) -> Map<u64, u128> {
        pairs_map(self.sequence_index@)
    }

    /// The last sequence number handed out, if any.
    pub closed spec fn last_sequence_view(self) -> Option<u64> {
        self.last_sequence
    }

    /// The last sequence number handed out, 0 before the first.
    pub open spec fn last_value(self) -> u64 {
        match self.last_sequence_view() {
            Some(v) => v,
            None => 0,
        }
    }

    /// Some stored job is being processed.
    pub open spec fn has_processing(self) -> bool {
        exists|id: u128|
            #![trigger self.jobs_view()[id]]
            self.jobs_view().contains_key(id) && self.jobs_view()[id].status
                == JobStatus::Processing
    }

    /// Sequence number `k` is in use and leads to a stored pending job.
    pub open spec fn pending_at(self, k: u64) -> bool {
        &&& self.sequence_view().contains_key(k)
        &&& self.jobs_view().contains_key(self.sequence_view()[k])
        &&& self.jobs_view()[self.sequence_view()[k]].status == JobStatus::Pending
    }

    /// `job` is the pending job with the smallest sequence number.
    pub open spec fn is_next_pending(self, job: Job) -> bool {
        exists|k: u64|
            #![trigger self.pending_at(k)]
            self.pending_at(k) && job == self.jobs_view()[self.sequence_view()[k]] && forall|k2: u64|
                k2 < k ==> !#[trigger] self.pending_at(k2)
    }

    /// What the store hands out as next job: nothing while a job is being
    /// processed; else the pending job that came first, if there is one.
    pub open spec fn fetch_spec(self, r: Option<Job>) -> bool {
        if self.has_processing() {
            r is None
        } else {
            match r {
                None => forall|k: u64| !#[trigger] self.pending_at(k),
                Some(job) => self.is_next_pending(job),
            }
        }
    }

    /// Every job is stored under its own id.
    pub open spec fn ids_consistent(self) -> bool {
        forall|id: u128| #[trigger]
            self.jobs_view().contains_key(id) ==> self.jobs_view()[id].id == id
    }

    /// At most one stored job is being processed.
    pub open spec fn at_most_one_processing(self) -> bool {
        forall|a: u128, b: u128|
            #![trigger self.jobs_view()[a], self.jobs_view()[b]]
            self.jobs_view().contains_key(a) && self.jobs_view().contains_key(b)
                && self.jobs_view()[a].status == JobStatus::Processing
                && self.jobs_view()[b].status == JobStatus::Processing ==> a == b
    }

    /// Every sequence number in use was handed out already.
    pub open spec fn sequences_issued(self) -> bool {
        forall|k: u64| #[trigger] self.sequence_view().contains_key(k) ==> k <= self.last_value()
    }

    /// What a scheduler keeps true of its store.
    pub open spec fn queue_wf(self) -> bool {
        &&& self.ids_consistent()
        &&& self.at_most_one_processing()
        &&& self.sequences_issued()
    }

    /// `after` is this store once the status of job `id` is set to
    /// `status`: `Completed` removes the job and the sequence entry under its
    /// sequence number; a missing id changes nothing.
    pub open spec fn status_update(self, id: u128, status: JobStatus, after: Self) -> bool {
        &&& after.last_sequence_view() == self.last_sequence_view()
        &&& if !self.jobs_view().contains_key(id) {
            &&& after.jobs_view() == self.jobs_view()
            &&& after.sequence_view() == self.sequence_view()
        } else if status == JobStatus::Completed {
            &&& after.jobs_view() == self.jobs_view().remove(id)
            &&& after.sequence_view() == self.sequence_view().remove(
                self.jobs_view()[id].sequence,
            )
        } else {
            &&& after.jobs_view() == self.jobs_view().insert(
                id,
                with_status(self.jobs_view()[id], status),
            )
            &&& after.sequence_view() == self.sequence_view()
        }
    }

    /// An empty store.
    pub fn new() -> (s: Self)
        ensures
            s.jobs_view() == Map::<u128, Job>::empty(),
            s.sequence_view() == Map::<u64, u128>::empty(),
            s.last_sequence_view() == None::<u64>,
            s.queue_wf(),
    {
        RedbJobStore { jobs: Vec::new(), sequence_index: Vec::new(), last_sequence: None }
    }

    /// A store holding the given table contents; `None` when `jobs` holds
    /// an id twice or `sequence_index` is not in strictly ascending order.
    pub fn from_tables(
        jobs: Vec<(u128, Job)>,
        sequence_index: Vec<(u64, u128)>,
        last_sequence: Option<u64>,
    ) -> (r: Option<Self>)
        ensures
            r is Some <==> keys_distinct(jobs@) && keys_increasing(sequence_index@),
            r matches Some(s) ==> {
                &&& s.jobs_view() == pairs_map(jobs@)
                &&& s.sequence_view() == pairs_map(sequence_index@)
                &&& s.last_sequence_view() == last_sequence
            },
    {
        let mut i: usize = 0;
        while i < jobs.len()
            invariant
                i <= jobs@.len(),
                forall|a: int, b: int| 0 <= a < b < jobs@.len() && a < i ==> jobs@[a].0 != jobs@[b].0,
            decreases jobs.len() - i,
        {
            let mut j: usize = i + 1;
            while j < jobs.len()
                invariant
                    i < jobs@.len(),
                    i + 1 <= j <= jobs@.len(),
                    forall|a: int, b: int|
                        0 <= a < b < jobs@.len() && a < i ==> jobs@[a].0 != jobs@[b].0,
                    forall|b: int| i < b < j ==> jobs@[i as int].0 != jobs@[b].0,
                decreases jobs.len() - j,
            {
                if jobs[i].0 == jobs[j].0 {
                    return None;
                }
                j = j + 1;
            }
            i = i + 1;
        }
        let mut i: usize = 1;
        while i < sequence_index.len()
            invariant
                1 <= i,
                forall|a: int, b: int|
                    0 <= a < b < i && b < sequence_index@.len() ==> sequence_index@[a].0
                        < sequence_index@[b].0,
            decreases sequence_index.len() - i,
        {
            if sequence_index[i - 1].0 >= sequence_index[i].0 {
                return None;
            }
            proof {
                assert forall|a: int, b: int|
                    0 <= a < b < i + 1 && b < sequence_index@.len() implies sequence_index@[a].0
                    < sequence_index@[b].0 by {
                    if b == i && a < i - 1 {
                        assert(sequence_index@[a].0 < sequence_index@[i - 1].0);
                    }
                }
            }
            i = i + 1;
        }
        Some(RedbJobStore { jobs, sequence_index, last_sequence })
    }

    /// The jobs table, in storage order.
    pub fn jobs(&self) -> (t: &Vec<(u128, Job)>)
        ensures
            keys_distinct(t@),
            pairs_map(t@) == self.jobs_view(),
    {
        proof {
            use_type_invariant(self);
        }
        &self.jobs
    }

    /// The sequence table, in ascending sequence order.
    pub fn sequence_index(&self) -> (t: &Vec<(u64, u128)>)
        ensures
            keys_increasing(t@),
            pairs_map(t@) == self.sequence_view(),
    {
        proof {
            use_type_invariant(self);
        }
        &self.sequence_index
    }

    /// The last sequence number handed out, if any.
    pub fn last_sequence(&self) -> (v: Option<u64>)
        ensures
            v == self.last_sequence_view(),
    {
        self.last_sequence
    }

    fn find_job(&self, id: u128) -> (r: Option<usize>)
        ensures
            match r {
                Some(i) => i < self.jobs@.len() && self.jobs@[i as int].0 == id,
                None => forall|i: int| 0 <= i < self.jobs@.len() ==> self.jobs@[i].0 != id,
            },
    {
        let mut i: usize = 0;
        while i < self.jobs.len()
            invariant
                i <= self.jobs@.len(),
                forall|j: int| 0 <= j < i ==> self.jobs@[j].0 != id,
            decreases self.jobs.len() - i,
        {
            if self.jobs[i].0 == id {
                return Some(i);
            }
            i = i + 1;
        }
        None
    }

    /// Hands out the next sequence number, one more than the last.
    pub fn next_sequence(&mut self) -> (next: u64)
        requires
            old(self).last_value() < u64::MAX,
        ensures
            next == old(self).last_value() + 1,
            final(self).last_sequence_view() == Some(next),
            final(self).jobs_view() == old(self).jobs_view(),
            final(self).sequence_view() == old(self).sequence_view(),
    {
        proof {
            use_type_invariant(&*self);
        }
        let current = match self.last_sequence {
            Some(v) => v,
            None => 0,
        };
        let next = current + 1;
        self.last_sequence = Some(next);
        next
    }

    /// Stores `job` under its id, and its id under its sequence number;
    /// entries already there under those keys are replaced.
    pub fn insert_job(&mut self, job: &Job)
        ensures
            final(self).jobs_view() == old(self).jobs_view().insert(job.id, *job),
            final(self).sequence_view() == old(self).sequence_view().insert(job.sequence, job.id),
            final(self).last_sequence_view() == old(self).last_sequence_view(),
    {
        proof {
            use_type_invariant(&*self);
        }
        let mut jobs: Vec<(u128, Job)> = Vec::new();
        core::mem::swap(&mut jobs, &mut self.jobs);
        put_by_id(&mut jobs, job.id, job.duplicate());
        self.jobs = jobs;
        let mut index: Vec<(u64, u128)> = Vec::new();
        core::mem::swap(&mut index, &mut self.sequence_index);
        put_by_key(&mut index, job.sequence, job.id);
        self.sequence_index = index;
    }

    /// Sets the status of the job with this id. `Completed` removes the job
    /// and the sequence entry under its sequence number instead. A missing
    /// id changes nothing.
    pub fn update_status(&mut self, id: u128, status: JobStatus)
        ensures
            old(self).status_update(id, status, *final(self)),
    {
        proof {
            use_type_invariant(&*self);
            lemma_pairs_map(self.jobs@);
        }
        match self.find_job(id) {
            None => {},
            Some(i) => {
                let mut jobs: Vec<(u128, Job)> = Vec::new();
                core::mem::swap(&mut jobs, &mut self.jobs);
                if status == JobStatus::Completed {
                    let (_, job) = remove_at(&mut jobs, i);
                    self.jobs = jobs;
                    let mut index: Vec<(u64, u128)> = Vec::new();
                    core::mem::swap(&mut index, &mut self.sequence_index);
                    remove_by_key(&mut index, job.sequence);
                    self.sequence_index = index;
                } else {
                    let mut job = jobs[i].1.duplicate();
                    job.status = status;
                    put_by_id(&mut jobs, id, job);
                    self.jobs = jobs;
                }
            },
        }
    }

    /// The next job to process: none while a job is processing, else the
    /// pending job with the smallest sequence number, if any.
    pub fn fetch_next_pending(&self) -> (r: Option<Job>)
        ensures
            self.fetch_spec(r),
    {
        proof {
            use_type_invariant(self);
            lemma_pairs_map(self.jobs@);
            lemma_pairs_map(self.sequence_index@);
        }
        let mut i: usize = 0;
        while i < self.jobs.len()
            invariant
                i <= self.jobs@.len(),
                keys_distinct(self.jobs@),
                forall|j: int| 0 <= j < i ==> self.jobs@[j].1.status != JobStatus::Processing,
            decreases self.jobs.len() - i,
        {
            if self.jobs[i].1.status == JobStatus::Processing {
                proof {
                    lemma_pairs_map(self.jobs@);
                    let id = self.jobs@[i as int].0;
                    assert(self.jobs_view()[id] == self.jobs@[i as int].1);
                }
                return None;
            }
            i = i + 1;
        }
        assert(!self.has_processing()) by {
            assert forall|id: u128| self.jobs_view().contains_key(id) implies self.jobs_view()[id].status
                != JobStatus::Processing by {
                let j = choose|j: int| 0 <= j < self.jobs@.len() && self.jobs@[j].0 == id;
                assert(self.jobs_view()[self.jobs@[j].0] == self.jobs@[j].1);
            }
        }
        let mut i: usize = 0;
        while i < self.sequence_index.len()
            invariant
                i <= self.sequence_index@.len(),
                keys_distinct(self.jobs@),
                keys_increasing(self.sequence_index@),
                !self.has_processing(),
                forall|j: int| 0 <= j < i ==> !self.pending_at(#[trigger] self.sequence_index@[j].0),
            decreases self.sequence_index.len() - i,
        {
            let (key, id) = self.sequence_index[i];
            proof {
                lemma_pairs_map(self.jobs@);
                lemma_pairs_map(self.sequence_index@);
                assert(self.sequence_view()[key] == id);
            }
            match self.find_job(id) {
                Some(j) => {
                    if self.jobs[j].1.status == JobStatus::Pending {
                        let job = self.jobs[j].1.duplicate();
                        proof {
                            assert(self.jobs_view()[self.jobs@[j as int].0] == self.jobs@[j as int].1);
                            assert(self.pending_at(key));
                            assert(job == self.jobs_view()[self.sequence_view()[key]]);
                            assert forall|k2: u64| k2 < key implies !#[trigger] self.pending_at(k2) by {
                                if self.sequence_view().contains_key(k2) {
                                    let a = choose|a: int|
                                        0 <= a < self.sequence_index@.len() && self.sequence_index@[a].0 == k2;
                                    if a >= i {
                                        if a > i {
                                            assert(self.sequence_index@[i as int].0 < self.sequence_index@[a].0);
                                        }
                                    }
                                    assert(a < i);
                                }
                            }
                        }
                        return Some(job);
                    }
                    proof {
                        assert(self.jobs_view()[self.jobs@[j as int].0] == self.jobs@[j as int].1);
                    }
                },
                None => {},
            }
            i = i + 1;
        }
        proof {
            assert forall|k: u64| !#[trigger] self.pending_at(k) by {
                if self.sequence_view().contains_key(k) {
                    let a = choose|a: int|
                        0 <= a < self.sequence_index@.len() && self.sequence_index@[a].0 == k;
                    assert(!self.pending_at(self.sequence_index@[a].0));
                }
            }
        }
        None
    }
}

} // verus!
