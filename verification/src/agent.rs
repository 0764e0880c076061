//! The agent's decisions: what a user's message and a finished job lead
//! to. The surrounding loop receives the events, sends the replies and
//! runs the jobs handed out.

use vstd::prelude::*;
use crate::command::{message_commands, resolve_commands, response_for, LoopControl, Command};
use crate::job::{Job, JobRole, JobStatus, next_stage, with_role};
use crate::scheduler::JobScheduler;
use crate::store::RedbJobStore;

verus! {

/// The text that a job's `Embed` stage searches the tools with: the user's
/// message when the job has one, else its payload.
pub open spec fn stage_input(job: Job) -> Seq<char> {
    match job.user_message {
        Some(m) => m@,
        None => job.payload@,
    }
}

/// The payload that a job's stage produces; `tool` is the best-matching
/// tool's name, used at the `Embed` stage.
pub open spec fn stage_payload(job: Job, tool: Seq<char>) -> Seq<char> {
    match job.role {
        JobRole::Embed => "Task: "@ + tool,
        JobRole::Interpret => "[interpreted] "@ + job.payload@,
        JobRole::Call => "[called] "@ + job.payload@,
        JobRole::Respond => "[response] "@ + job.payload@,
    }
}

/// The text that the `Embed` stage of `job` searches the tools with.
pub fn stage_input_text(job: &Job) -> (t: &str)
    ensures
        t@ == stage_input(*job),
{
    match &job.user_message {
        Some(m) => m.as_str(),
        None => job.payload.as_str(),
    }
}

/// The job once its stage has run: the same job with the stage's payload.
/// `top_tool` is the name of the tool that best matches the stage input,
/// and is used at the `Embed` stage only.
pub fn process_job(job: &Job, top_tool: &str) -> (done: Job)
    ensures
        done == (Job { payload: done.payload, ..*job }),
        done.payload@ == stage_payload(*job, top_tool@),
{
    let payload = match job.role {
        JobRole::Embed => String::from_str("Task: ").concat(top_tool),
        JobRole::Interpret => String::from_str("[interpreted] ").concat(job.payload.as_str()),
        JobRole::Call => String::from_str("[called] ").concat(job.payload.as_str()),
        JobRole::Respond => String::from_str("[response] ").concat(job.payload.as_str()),
    };
    let mut done = job.duplicate();
    done.payload = payload;
    done
}

/// The reply that acknowledges a queued message.
pub open spec fn queued_reply() -> Seq<char> {
    "Queued..."@
}

/// The reply that announces a shutdown.
pub open spec fn shutdown_reply() -> Seq<char> {
    "System shutting down... \u{1f50c}"@
}

/// What a user's message leads to: whether the loop goes on, the replies to
/// send in order, the job queued for the message, and the job to run now.
pub struct MessageOutcome {
    pub control: LoopControl,
    pub replies: Vec<String>,
    pub queued: Option<Job>,
    pub dispatch: Option<Job>,
}

/// `after` is `before` once `next_job` has run and handed out `next`.
pub open spec fn dispatched(before: RedbJobStore, next: Option<Job>, after: RedbJobStore) -> bool {
    match next {
        None => before.fetch_spec(None) && after == before,
        Some(job) => {
            &&& job.status == JobStatus::Processing
            &&& before.fetch_spec(Some(Job { status: JobStatus::Pending, ..job }))
            &&& before.status_update(job.id, JobStatus::Processing, after)
        },
    }
}

/// Handles a message from chat `chat_id`: runs the commands it holds and
/// replies to each. A message without commands is queued as a new job
/// at the `Embed` stage, acknowledged, and the next job is handed out.
/// `\shutdown` ends the loop with a last reply.
pub fn on_user_message(scheduler: &mut JobScheduler, chat_id: i64, text: String) -> (out:
    MessageOutcome)
    requires
        message_commands(text@).len() == 0 ==> old(scheduler).store_view().last_value() < u64::MAX,
    ensures
        (out.control == LoopControl::Break) <==> message_commands(text@).contains(
            Command::Shutdown,
        ),
        out.queued is Some <==> message_commands(text@).len() == 0,
        out.replies@.len() == message_commands(text@).len() + (if out.queued is Some
            || out.control == LoopControl::Break {
            1int
        } else {
            0int
        }),
        forall|i: int|
            0 <= i < message_commands(text@).len() ==> #[trigger] out.replies@[i]@ == response_for(
                message_commands(text@)[i],
            ),
        out.control == LoopControl::Break ==> out.replies@.last()@ == shutdown_reply(),
        out.queued is None ==> out.dispatch is None && final(scheduler).store_view() == old(
            scheduler,
        ).store_view(),
        out.queued matches Some(job) ==> {
            &&& out.replies@.last()@ == queued_reply()
            &&& job.chat_id == chat_id
            &&& job.user_message == Some(text)
            &&& job.payload@ == Seq::<char>::empty()
            &&& job.role == JobRole::Embed
            &&& job.status == JobStatus::Pending
            &&& job.sequence == old(scheduler).store_view().last_value() + 1
            &&& exists|mid: RedbJobStore|
                {
                    &&& mid.jobs_view() == old(scheduler).store_view().jobs_view().insert(
                        job.id,
                        job,
                    )
                    &&& mid.sequence_view() == old(
                        scheduler,
                    ).store_view().sequence_view().insert(job.sequence, job.id)
                    &&& mid.last_sequence_view() == Some(job.sequence)
                    &&& #[trigger] dispatched(mid, out.dispatch, final(scheduler).store_view())
                }
        },
        old(scheduler).store_view().queue_wf() ==> final(scheduler).store_view().queue_wf(),
{
    let (control, mut replies) = resolve_commands(text.as_str());
    let ghost commands = message_commands(text@);
    let ghost responses = replies@;
    match control {
        LoopControl::Break => {
            replies.push(String::from_str("System shutting down... \u{1f50c}"));
            proof {
                assert forall|i: int| 0 <= i < commands.len() implies #[trigger] replies@[i]@
                    == response_for(commands[i]) by {
                    assert(replies@[i] == responses[i]);
                }
            }
            MessageOutcome { control, replies, queued: None, dispatch: None }
        },
        LoopControl::Continue => {
            if replies.len() == 0 {
                let queued = scheduler.enqueue(
                    chat_id,
                    Some(text),
                    String::new(),
                    JobRole::Embed,
                );
                let ghost mid = scheduler.store_view();
                replies.push(String::from_str("Queued..."));
                let dispatch = scheduler.next_job();
                proof {
                    assert(dispatched(mid, dispatch, scheduler.store_view()));
                }
                MessageOutcome { control, replies, queued: Some(queued), dispatch }
            } else {
                MessageOutcome { control, replies, queued: None, dispatch: None }
            }
        },
    }
}

/// What a finished job leads to: the reply to send, if any, as chat and
/// text, the job queued for the next stage, and the job to run now.
pub struct FinishOutcome {
    pub reply: Option<(i64, String)>,
    pub queued: Option<Job>,
    pub dispatch: Option<Job>,
}

/// Handles a job whose stage has run: completes it, replies with its
/// payload when it was the `Respond` stage, else queues it at the next
/// stage; then hands out the next job.
pub fn on_job_finished(scheduler: &mut JobScheduler, job: Job) -> (out: FinishOutcome)
    requires
        job.role != JobRole::Respond ==> old(scheduler).store_view().last_value() < u64::MAX,
    ensures
        job.role == JobRole::Respond ==> {
            &&& out.queued is None
            &&& out.reply matches Some(r) && r.0 == job.chat_id && r.1@ == "Response: "@
                + job.payload@
        },
        job.role != JobRole::Respond ==> {
            &&& out.reply is None
            &&& out.queued matches Some(q) && q == (Job {
                id: q.id,
                sequence: (old(scheduler).store_view().last_value() + 1) as u64,
                status: JobStatus::Pending,
                ..with_role(job, next_stage(job.role)->0)
            })
        },
        exists|completed: RedbJobStore, mid: RedbJobStore|
            {
                &&& #[trigger] old(scheduler).store_view().status_update(
                    job.id,
                    JobStatus::Completed,
                    completed,
                )
                &&& match out.queued {
                    None => mid == completed,
                    Some(q) => {
                        &&& mid.jobs_view() == completed.jobs_view().insert(q.id, q)
                        &&& mid.sequence_view() == completed.sequence_view().insert(
                            q.sequence,
                            q.id,
                        )
                        &&& mid.last_sequence_view() == Some(q.sequence)
                    },
                }
                &&& #[trigger] dispatched(mid, out.dispatch, final(scheduler).store_view())
            },
        old(scheduler).store_view().queue_wf() ==> final(scheduler).store_view().queue_wf(),
{
    scheduler.complete(job.id);
    let ghost completed = scheduler.store_view();
    let mut reply: Option<(i64, String)> = None;
    let mut queued: Option<Job> = None;
    match job.role {
        JobRole::Respond => {
            reply = Some((job.chat_id, String::from_str("Response: ").concat(job.payload.as_str())));
        },
        _ => {
            match job.next_role() {
                Some(next_stage_job) => {
                    queued = Some(scheduler.enqueue_job(next_stage_job));
                },
                None => {},
            }
        },
    }
    let ghost mid = scheduler.store_view();
    let dispatch = scheduler.next_job();
    proof {
        assert(dispatched(mid, dispatch, scheduler.store_view()));
    }
    FinishOutcome { reply, queued, dispatch }
}

} // verus!
