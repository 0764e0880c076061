//! Jobs: the unit of work that moves through the agent's pipeline.

use vstd::prelude::*;

verus! {

/// Where a job stands in the queue.
#[derive(Debug, Clone, Copy, PartialEq, Eq, Structural)]
pub enum JobStatus {
    Pending,
    Processing,
    Completed,
    Failed,
}

/// The pipeline stage that a job is at.
#[derive(Debug, Clone, Copy, PartialEq, Eq, Structural)]
pub enum JobRole {
    Embed,
    Interpret,
    Call,
    Respond,
}

/// A job of the pipeline. `id` holds the 128 bits of the job's UUID, and
/// `chat_id` the identifier of the chat that it answers.
#[derive(Debug)]
pub struct Job {
    pub id: u128,
    pub chat_id: i64,
    pub sequence: u64,
    pub user_message: Option<String>,
    pub payload: String,
    pub status: JobStatus,
    pub role: JobRole,
}

/// The stage after `role`; none after `Respond`, where the pipeline ends.
pub open spec fn next_stage(role: JobRole) -> Option<JobRole> {
    match role {
        JobRole::Embed => Some(JobRole::Interpret),
        JobRole::Interpret => Some(JobRole::Call),
        JobRole::Call => Some(JobRole::Respond),
        JobRole::Respond => None,
    }
}

/// `job` with its role replaced.
pub open spec fn with_role(job: Job, role: JobRole) -> Job {
    Job { role, ..job }
}

/// `job` with its status replaced.
pub open spec fn with_status(job: Job, status: JobStatus) -> Job {
    Job { status, ..job }
}

fn clone_message(m: &Option<String>) -> (r: Option<String>)
    ensures
        r == *m,
{
    match m {
        Some(s) => Some(s.clone()),
        None => None,
    }
}

impl Job {
    /// A copy of this job.
    pub fn duplicate(&self) -> (j: Job)
        ensures
            j == *self,
    {
        Job {
            id: self.id,
            chat_id: self.chat_id,
            sequence: self.sequence,
            user_message: clone_message(&self.user_message),
            payload: self.payload.clone(),
            status: self.status,
            role: self.role,
        }
    }

    /// The same job at the next stage of the pipeline, or `None` once it
    /// has reached `Respond`.
    pub fn next_role(&self) -> (next: Option<Job>)
        ensures
            next == (match next_stage(self.role) {
                Some(role) => Some(with_role(*self, role)),
                None => None,
            }),
    {
        let next = match self.role {
            JobRole::Embed => Some(JobRole::Interpret),
            JobRole::Interpret => Some(JobRole::Call),
            JobRole::Call => Some(JobRole::Respond),
            JobRole::Respond => None,
        };
        match next {
            Some(role) => {
                let mut job = self.duplicate();
                job.role = role;
                Some(job)
            },
            None => None,
        }
    }
}

} // verus!
