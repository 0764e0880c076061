use micro_agent::command::{get_help_message, identify_commands, resolve_commands, Command, LoopControl};

const HELP: &str = "Available commands:\n- \\shutdown: Shuts down the system.\n- \\current: Displays the current Job.\n- \\help: Shows this help message.\n- \\list: Shows all Jobs in memory.";

#[test]
fn help_message_lists_commands() {
    assert_eq!(get_help_message(), HELP);
}

#[test]
fn command_display_names() {
    assert_eq!(Command::Shutdown.to_text(), "shutdown");
    assert_eq!(Command::Current.to_text(), "current");
    assert_eq!(Command::Help.to_text(), "help");
    assert_eq!(Command::List.to_text(), "list");
}

#[test]
fn identifies_commands_in_order() {
    assert_eq!(
        identify_commands("please \\current then \\help and \\list"),
        vec![Command::Current, Command::Help, Command::List]
    );
}

#[test]
fn ignores_partial_and_glued_words() {
    assert_eq!(identify_commands("\\shutdownnow shutdown \\Help x\\list"), Vec::<Command>::new());
}

#[test]
fn splits_on_any_unicode_whitespace() {
    assert_eq!(
        identify_commands("\t\\help\n\\list\u{3000}\\current\u{a0}"),
        vec![Command::Help, Command::List, Command::Current]
    );
}

#[test]
fn empty_message_has_no_commands() {
    assert_eq!(identify_commands(""), Vec::<Command>::new());
    assert_eq!(identify_commands("   "), Vec::<Command>::new());
}

#[test]
fn command_word_alone_gives_its_command() {
    for (word, c) in [
        ("\\shutdown", Command::Shutdown),
        ("\\current", Command::Current),
        ("\\help", Command::Help),
        ("\\list", Command::List),
    ] {
        assert_eq!(identify_commands(word), vec![c]);
        assert_eq!(identify_commands(&format!("some text {}", word)), vec![c]);
    }
}

#[test]
fn plain_message_continues_without_replies() {
    let (control, replies) = resolve_commands("hello there");
    assert_eq!(control, LoopControl::Continue);
    assert!(replies.is_empty());
}

#[test]
fn help_command_replies_with_help() {
    let (control, replies) = resolve_commands("\\help");
    assert_eq!(control, LoopControl::Continue);
    assert_eq!(replies, vec![HELP.to_string()]);
}

#[test]
fn shutdown_breaks_and_others_still_run() {
    let (control, replies) = resolve_commands("\\current \\shutdown \\list");
    assert_eq!(control, LoopControl::Break);
    assert_eq!(
        replies,
        vec![
            "Executing current...".to_string(),
            "Executing shutdown...".to_string(),
            "Not implemented command: list".to_string(),
        ]
    );
}

#[test]
fn repeated_commands_reply_each_time() {
    let (control, replies) = resolve_commands("\\current \\current");
    assert_eq!(control, LoopControl::Continue);
    assert_eq!(replies.len(), 2);
}
