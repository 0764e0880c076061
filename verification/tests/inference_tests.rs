use micro_agent::inference::{extract_response, format_prompt, Generation, LlmError, MAX_NEW_TOKENS};

#[test]
fn prompt_frame() {
    assert_eq!(format_prompt("What time?"), "### Instruction:\nWhat time? \n ### Response: \n");
}

#[test]
fn answer_after_the_last_marker() {
    assert_eq!(extract_response("### Response: a ### Response:  final answer \n"), "final answer");
}

#[test]
fn answer_without_marker_is_trimmed_output() {
    assert_eq!(extract_response("  Monday at 14:00\n"), "Monday at 14:00");
    assert_eq!(extract_response(""), "");
    assert_eq!(extract_response(" \t\n"), "");
}

#[test]
fn answer_of_full_prompt_echo() {
    let out = format!("{}  Alice, Monday 14:00  ", format_prompt("Extract dates"));
    assert_eq!(extract_response(&out), "Alice, Monday 14:00");
}

#[test]
fn marker_at_the_very_end_gives_empty_answer() {
    assert_eq!(extract_response("text ### Response:"), "");
}

#[test]
fn partial_marker_is_kept() {
    assert_eq!(extract_response("### Respons: x"), "### Respons: x");
}

#[test]
fn error_messages() {
    assert_eq!(LlmError::Download("net".to_string()).to_text(), "Model download failed: net");
    assert_eq!(LlmError::Backend("b".to_string()).to_text(), "Backend init failed: b");
    assert_eq!(LlmError::ModelLoad("m".to_string()).to_text(), "Model load failed: m");
    assert_eq!(LlmError::Inference("i".to_string()).to_text(), "Inference failed: i");
}

#[test]
fn generation_positions_follow_the_prompt() {
    let mut g = Generation::start(10);
    assert!(g.wants_token());
    assert_eq!(g.accept(" Hello"), 10);
    assert_eq!(g.accept(" world "), 11);
    assert_eq!(g.finish(), "Hello world");
}

#[test]
fn generation_stops_after_the_token_limit() {
    let mut g = Generation::start(0);
    let mut n = 0;
    while g.wants_token() {
        g.accept("a");
        n += 1;
    }
    assert_eq!(n, MAX_NEW_TOKENS);
    assert_eq!(g.finish().len(), 256);
}
