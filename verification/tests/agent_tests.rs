use micro_agent::agent::{on_job_finished, on_user_message, process_job, stage_input_text};
use micro_agent::command::LoopControl;
use micro_agent::job::{Job, JobRole, JobStatus};
use micro_agent::scheduler::JobScheduler;
use micro_agent::store::RedbJobStore;

fn job(role: JobRole, user_message: Option<&str>, payload: &str) -> Job {
    Job {
        id: 1,
        chat_id: 2,
        sequence: 3,
        user_message: user_message.map(|s| s.to_string()),
        payload: payload.to_string(),
        status: JobStatus::Processing,
        role,
    }
}

#[test]
fn stage_payloads() {
    assert_eq!(process_job(&job(JobRole::Embed, Some("m"), ""), "phone_format").payload, "Task: phone_format");
    assert_eq!(process_job(&job(JobRole::Interpret, None, "Task: x"), "").payload, "[interpreted] Task: x");
    assert_eq!(process_job(&job(JobRole::Call, None, "y"), "").payload, "[called] y");
    assert_eq!(process_job(&job(JobRole::Respond, None, "z"), "").payload, "[response] z");
    let done = process_job(&job(JobRole::Call, Some("m"), "y"), "");
    assert_eq!(done.user_message, Some("m".to_string()));
    assert_eq!(done.role, JobRole::Call);
}

#[test]
fn embed_searches_with_user_message_else_payload() {
    assert_eq!(stage_input_text(&job(JobRole::Embed, Some("msg"), "pay")), "msg");
    assert_eq!(stage_input_text(&job(JobRole::Embed, None, "pay")), "pay");
}

#[test]
fn plain_message_is_queued_and_dispatched() {
    let mut s = JobScheduler::new(RedbJobStore::new());
    let out = on_user_message(&mut s, 77, "book a table".to_string());
    assert_eq!(out.control, LoopControl::Continue);
    assert_eq!(out.replies, vec!["Queued...".to_string()]);
    let queued = out.queued.unwrap();
    assert_eq!(queued.user_message, Some("book a table".to_string()));
    assert_eq!(queued.role, JobRole::Embed);
    let dispatched = out.dispatch.unwrap();
    assert_eq!(dispatched.id, queued.id);
    assert_eq!(dispatched.status, JobStatus::Processing);
    let second = on_user_message(&mut s, 77, "another".to_string());
    assert!(second.queued.is_some());
    assert!(second.dispatch.is_none());
}

#[test]
fn command_message_is_not_queued() {
    let mut s = JobScheduler::new(RedbJobStore::new());
    let out = on_user_message(&mut s, 1, "\\current".to_string());
    assert_eq!(out.replies, vec!["Executing current...".to_string()]);
    assert!(out.queued.is_none());
    assert!(s.store().jobs().is_empty());
}

#[test]
fn shutdown_message_ends_the_loop() {
    let mut s = JobScheduler::new(RedbJobStore::new());
    let out = on_user_message(&mut s, 1, "\\shutdown".to_string());
    assert_eq!(out.control, LoopControl::Break);
    assert_eq!(
        out.replies,
        vec!["Executing shutdown...".to_string(), "System shutting down... \u{1f50c}".to_string()]
    );
}

#[test]
fn a_job_runs_through_every_stage_then_replies() {
    let mut s = JobScheduler::new(RedbJobStore::new());
    let out = on_user_message(&mut s, 5, "hello".to_string());
    let mut running = out.dispatch.unwrap();
    let mut roles = vec![];
    loop {
        roles.push(running.role);
        let done = process_job(&running, "tool");
        let fin = on_job_finished(&mut s, done);
        if let Some((chat, text)) = fin.reply {
            assert_eq!(chat, 5);
            assert_eq!(text, "Response: [response] [called] [interpreted] Task: tool");
            assert!(fin.dispatch.is_none());
            break;
        }
        running = fin.dispatch.unwrap();
    }
    assert_eq!(roles, vec![JobRole::Embed, JobRole::Interpret, JobRole::Call, JobRole::Respond]);
    assert!(s.store().jobs().is_empty());
}
