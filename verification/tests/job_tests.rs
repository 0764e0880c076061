use micro_agent::job::{Job, JobRole, JobStatus};

fn job(role: JobRole) -> Job {
    Job {
        id: 7,
        chat_id: -42,
        sequence: 3,
        user_message: Some("hi".to_string()),
        payload: "p".to_string(),
        status: JobStatus::Processing,
        role,
    }
}

#[test]
fn pipeline_runs_embed_interpret_call_respond() {
    let mut j = job(JobRole::Embed);
    let mut roles = vec![j.role];
    while let Some(next) = j.next_role() {
        roles.push(next.role);
        j = next;
    }
    assert_eq!(roles, vec![JobRole::Embed, JobRole::Interpret, JobRole::Call, JobRole::Respond]);
}

#[test]
fn next_role_keeps_other_fields() {
    let next = job(JobRole::Interpret).next_role().unwrap();
    assert_eq!(next.role, JobRole::Call);
    assert_eq!(next.id, 7);
    assert_eq!(next.chat_id, -42);
    assert_eq!(next.sequence, 3);
    assert_eq!(next.user_message, Some("hi".to_string()));
    assert_eq!(next.payload, "p");
    assert_eq!(next.status, JobStatus::Processing);
}

#[test]
fn respond_is_the_last_stage() {
    assert!(job(JobRole::Respond).next_role().is_none());
}
